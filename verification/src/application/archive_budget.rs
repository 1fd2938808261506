//! The budget of the whole canonical archive: how many sessions and activity
//! contexts it may hold once a payload of reconstructed sessions is promoted.
//! Identifier collections are lists in which nothing occurs twice.

use vstd::prelude::*;

use crate::application::payload::{ReconstructionPayload, StagedSession};
use crate::text::str_eq;

verus! {

pub const MAX_GLOBAL_CANONICAL_SESSIONS: usize = 250_000;
pub const MAX_GLOBAL_CANONICAL_CONTEXTS: usize = 1_000_000;

#[derive(Clone, Copy, PartialEq, Eq, Debug, Structural)]
pub struct CanonicalArchiveLimits {
    pub max_sessions: usize,
    pub max_contexts: usize,
}

impl Default for CanonicalArchiveLimits {
    fn default() -> (r: CanonicalArchiveLimits)
        ensures
            r == (CanonicalArchiveLimits {
                max_sessions: MAX_GLOBAL_CANONICAL_SESSIONS,
                max_contexts: MAX_GLOBAL_CANONICAL_CONTEXTS,
            }),
    {
        CanonicalArchiveLimits {
            max_sessions: MAX_GLOBAL_CANONICAL_SESSIONS,
            max_contexts: MAX_GLOBAL_CANONICAL_CONTEXTS,
        }
    }
}

/// The sessions the archive holds for one instance.
pub struct InstanceSessions {
    pub instance_id: String,
    pub session_ids: Vec<String>,
}

pub struct CanonicalArchiveBudget {
    pub session_ids: Vec<String>,
    pub session_ids_by_instance: Vec<InstanceSessions>,
    pub contexts: usize,
    pub contexts_by_instance: Vec<(String, usize)>,
    pub already_over_limit: bool,
}

pub open spec fn strs(v: Seq<String>) -> Seq<Seq<char>> {
    v.map_values(|s: String| s@)
}

pub struct BudgetView {
    pub ids: Seq<Seq<char>>,
    pub by_instance: Seq<(Seq<char>, Seq<Seq<char>>)>,
    pub contexts: usize,
    pub contexts_by_instance: Seq<(Seq<char>, usize)>,
    pub over: bool,
}

impl CanonicalArchiveBudget {
    pub open spec fn view_of(&self) -> BudgetView {
        BudgetView {
            ids: strs(self.session_ids@),
            by_instance: self.session_ids_by_instance@.map_values(
                |e: InstanceSessions| (e.instance_id@, strs(e.session_ids@)),
            ),
            contexts: self.contexts,
            contexts_by_instance: self.contexts_by_instance@.map_values(|e: (String, usize)| (e.0@, e.1)),
            over: self.already_over_limit,
        }
    }

    pub fn new() -> (r: CanonicalArchiveBudget)
        ensures
            r.view_of() == (BudgetView {
                ids: Seq::empty(),
                by_instance: Seq::empty(),
                contexts: 0,
                contexts_by_instance: Seq::empty(),
                over: false,
            }),
            budget_wf(r.view_of()),
    {
        let r = CanonicalArchiveBudget {
            session_ids: Vec::new(),
            session_ids_by_instance: Vec::new(),
            contexts: 0,
            contexts_by_instance: Vec::new(),
            already_over_limit: false,
        };
        assert(r.view_of().ids =~= Seq::<Seq<char>>::empty());
        assert(r.view_of().by_instance =~= Seq::<(Seq<char>, Seq<Seq<char>>)>::empty());
        assert(r.view_of().contexts_by_instance =~= Seq::<(Seq<char>, usize)>::empty());
        r
    }
}

impl Default for CanonicalArchiveBudget {
    fn default() -> (r: CanonicalArchiveBudget)
        ensures
            r.view_of() == (BudgetView {
                ids: Seq::empty(),
                by_instance: Seq::empty(),
                contexts: 0,
                contexts_by_instance: Seq::empty(),
                over: false,
            }),
    {
        CanonicalArchiveBudget::new()
    }
}

/// `s` with later repetitions dropped.
pub open spec fn dedup(s: Seq<Seq<char>>) -> Seq<Seq<char>>
    decreases s.len(),
{
    if s.len() == 0 {
        Seq::empty()
    } else {
        let d = dedup(s.drop_last());
        if d.contains(s.last()) {
            d
        } else {
            d.push(s.last())
        }
    }
}

/// `base` followed by the items of `xs` it lacks.
pub open spec fn union_into(base: Seq<Seq<char>>, xs: Seq<Seq<char>>) -> Seq<Seq<char>>
    decreases xs.len(),
{
    if xs.len() == 0 {
        base
    } else {
        let u = union_into(base, xs.drop_last());
        if u.contains(xs.last()) {
            u
        } else {
            u.push(xs.last())
        }
    }
}

/// `base` without the items of `rs`.
pub open spec fn without(base: Seq<Seq<char>>, rs: Seq<Seq<char>>) -> Seq<Seq<char>>
    decreases base.len(),
{
    if base.len() == 0 {
        Seq::empty()
    } else {
        let w = without(base.drop_last(), rs);
        if rs.contains(base.last()) {
            w
        } else {
            w.push(base.last())
        }
    }
}

/// The number of items of `xs` that are new to `ids` or among `replaced`.
pub open spec fn count_new(xs: Seq<Seq<char>>, ids: Seq<Seq<char>>, replaced: Seq<Seq<char>>) -> nat
    decreases xs.len(),
{
    if xs.len() == 0 {
        0
    } else {
        count_new(xs.drop_last(), ids, replaced) + if !ids.contains(xs.last()) || replaced.contains(
            xs.last(),
        ) {
            1nat
        } else {
            0nat
        }
    }
}

/// The ids of the payload's sessions, in order.
pub open spec fn session_ids_of(sessions: Seq<StagedSession>) -> Seq<Seq<char>> {
    sessions.map_values(|e: StagedSession| e.id@)
}

/// The activity contexts a payload brings: its sessions' activities.
pub open spec fn activity_total(sessions: Seq<StagedSession>) -> int
    decreases sessions.len(),
{
    if sessions.len() == 0 {
        0
    } else {
        activity_total(sessions.drop_last()) + sessions.last().activities@.len()
    }
}

pub open spec fn find_instance<T>(entries: Seq<(Seq<char>, T)>, inst: Seq<char>) -> Option<int>
    decreases entries.len(),
{
    if entries.len() == 0 {
        None
    } else {
        match find_instance(entries.drop_last(), inst) {
            Some(i) => Some(i),
            None => if entries.last().0 == inst {
                Some(entries.len() - 1)
            } else {
                None
            },
        }
    }
}

/// The ids of the instance that a replacing payload removes.
pub open spec fn replaced_ids(b: BudgetView, inst: Seq<char>, replace: bool) -> Seq<Seq<char>> {
    if replace {
        match find_instance(b.by_instance, inst) {
            Some(i) => b.by_instance[i].1,
            None => Seq::empty(),
        }
    } else {
        Seq::empty()
    }
}

pub open spec fn replaced_contexts(b: BudgetView, inst: Seq<char>, replace: bool) -> int {
    if replace {
        match find_instance(b.contexts_by_instance, inst) {
            Some(i) => b.contexts_by_instance[i].1 as int,
            None => 0,
        }
    } else {
        0
    }
}

/// The archive's session count once the payload is promoted.
pub open spec fn sessions_after(b: BudgetView, p_ids: Seq<Seq<char>>, inst: Seq<char>, replace: bool) -> int {
    let removed = replaced_ids(b, inst, replace);
    let retained = if b.ids.len() >= removed.len() { b.ids.len() - removed.len() } else { 0 };
    retained + count_new(dedup(p_ids), b.ids, removed)
}

pub open spec fn contexts_after(b: BudgetView, incoming: int, inst: Seq<char>, replace: bool) -> int {
    let removed = replaced_contexts(b, inst, replace);
    (if b.contexts >= removed { b.contexts - removed } else { 0 }) + incoming
}

/// The outcome of retaining a payload: the archive must not be over its
/// limits already, and its sessions and contexts after promotion must fit.
pub open spec fn retain_payload_spec(
    b: BudgetView,
    p_ids: Seq<Seq<char>>,
    sessions: Seq<StagedSession>,
    inst: Seq<char>,
    replace: bool,
    l: CanonicalArchiveLimits,
) -> Result<(), Seq<char>> {
    if b.over {
        Err("global canonical archive usage"@)
    } else if sessions_after(b, p_ids, inst, replace) > usize::MAX {
        Err("global canonical session count"@)
    } else if activity_total(sessions) > usize::MAX {
        Err("global canonical context count"@)
    } else if contexts_after(b, activity_total(sessions), inst, replace) > usize::MAX {
        Err("global canonical context count"@)
    } else if sessions_after(b, p_ids, inst, replace) > l.max_sessions {
        Err("global canonical session count"@)
    } else if contexts_after(b, activity_total(sessions), inst, replace) > l.max_contexts {
        Err("global canonical context count"@)
    } else {
        Ok(())
    }
}

pub open spec fn remove_at<T>(s: Seq<T>, i: Option<int>) -> Seq<T> {
    match i {
        Some(k) => s.remove(k),
        None => s,
    }
}

/// The budget once a payload is retained: a replacing payload first drops
/// the instance's sessions; the payload's sessions are then added to the
/// archive and to the instance, and the instance's contexts are replaced or added.
pub open spec fn retained_view(
    b: BudgetView,
    p_ids: Seq<Seq<char>>,
    sessions: Seq<StagedSession>,
    inst: Seq<char>,
    replace: bool,
) -> BudgetView {
    let incoming = dedup(p_ids);
    let removed = replaced_ids(b, inst, replace);
    let by0 = if replace { remove_at(b.by_instance, find_instance(b.by_instance, inst)) } else { b.by_instance };
    let ids0 = without(b.ids, removed);
    let by1 = match find_instance(by0, inst) {
        Some(i) => by0.update(i, (inst, union_into(by0[i].1, incoming))),
        None => by0.push((inst, union_into(Seq::empty(), incoming))),
    };
    let total = activity_total(sessions);
    let ctx1 = match find_instance(b.contexts_by_instance, inst) {
        Some(i) => b.contexts_by_instance.update(
            i,
            (inst, if replace { total as usize } else {
                (if b.contexts_by_instance[i].1 + total > usize::MAX {
                    usize::MAX as int
                } else {
                    b.contexts_by_instance[i].1 + total
                }) as usize
            }),
        ),
        None => b.contexts_by_instance.push((inst, total as usize)),
    };
    BudgetView {
        ids: union_into(ids0, incoming),
        by_instance: by1,
        contexts: contexts_after(b, total, inst, replace) as usize,
        contexts_by_instance: ctx1,
        over: b.over,
    }
}

fn contains_str(v: &Vec<String>, x: &String) -> (r: bool)
    ensures
        r == strs(v@).contains(x@),
{
    let mut i: usize = 0;
    while i < v.len()
        invariant
            i <= v@.len(),
            forall|k: int| 0 <= k < i ==> v@[k]@ != x@,
        decreases v@.len() - i,
    {
        if str_eq(v[i].as_str(), x.as_str()) {
            assert(strs(v@)[i as int] == x@);
            return true;
        }
        i = i + 1;
    }
    proof {
        if strs(v@).contains(x@) {
            let k = choose|k: int| 0 <= k < strs(v@).len() && strs(v@)[k] == x@;
            assert(v@[k]@ == x@);
        }
    }
    false
}

fn dedup_ids(sessions: &Vec<StagedSession>) -> (r: Vec<String>)
    ensures
        strs(r@) == dedup(session_ids_of(sessions@)),
{
    let ghost ps = session_ids_of(sessions@);
    let mut r: Vec<String> = Vec::new();
    let mut i: usize = 0;
    assert(ps.take(0) =~= Seq::<Seq<char>>::empty());
    assert(strs(r@) =~= Seq::<Seq<char>>::empty());
    while i < sessions.len()
        invariant
            i <= sessions@.len(),
            ps == session_ids_of(sessions@),
            strs(r@) == dedup(ps.take(i as int)),
        decreases sessions@.len() - i,
    {
        assert(ps.take(i + 1).drop_last() =~= ps.take(i as int));
        assert(ps.take(i + 1).last() == sessions@[i as int].id@);
        let id = &sessions[i].id;
        if !contains_str(&r, id) {
            let ghost before = strs(r@);
            r.push(id.clone());
            assert(strs(r@) =~= before.push(id@));
        }
        i = i + 1;
    }
    assert(ps.take(ps.len() as int) =~= ps);
    r
}

fn count_new_exec(xs: &Vec<String>, ids: &Vec<String>, replaced: &Vec<String>) -> (r: usize)
    ensures
        r == count_new(strs(xs@), strs(ids@), strs(replaced@)),
        r <= xs@.len(),
{
    let mut n: usize = 0;
    let mut i: usize = 0;
    while i < xs.len()
        invariant
            i <= xs@.len(),
            n <= i,
            n == count_new(strs(xs@).take(i as int), strs(ids@), strs(replaced@)),
        decreases xs@.len() - i,
    {
        assert(strs(xs@).take(i + 1).drop_last() =~= strs(xs@).take(i as int));
        assert(strs(xs@).take(i + 1).last() == xs@[i as int]@);
        if !contains_str(ids, &xs[i]) || contains_str(replaced, &xs[i]) {
            n = n + 1;
        }
        i = i + 1;
    }
    assert(strs(xs@).take(xs@.len() as int) =~= strs(xs@));
    n
}

fn find_instance_sessions(by: &Vec<InstanceSessions>, inst: &String) -> (r: Option<usize>)
    ensures
        match r {
            Some(i) => i < by@.len() && find_instance(
                by@.map_values(|e: InstanceSessions| (e.instance_id@, strs(e.session_ids@))),
                inst@,
            ) == Some(i as int),
            None => find_instance(
                by@.map_values(|e: InstanceSessions| (e.instance_id@, strs(e.session_ids@))),
                inst@,
            ) is None,
        },
{
    let ghost bv = by@.map_values(|e: InstanceSessions| (e.instance_id@, strs(e.session_ids@)));
    let mut i: usize = 0;
    assert(bv.take(0) =~= Seq::<(Seq<char>, Seq<Seq<char>>)>::empty());
    while i < by.len()
        invariant
            i <= by@.len(),
            bv == by@.map_values(|e: InstanceSessions| (e.instance_id@, strs(e.session_ids@))),
            find_instance(bv.take(i as int), inst@) is None,
        decreases by@.len() - i,
    {
        assert(bv.take(i + 1).drop_last() =~= bv.take(i as int));
        assert(bv.take(i + 1).last().0 == by@[i as int].instance_id@);
        if str_eq(by[i].instance_id.as_str(), inst.as_str()) {
            proof {
                lemma_find_instance_extends(bv, inst@, i + 1);
            }
            return Some(i);
        }
        i = i + 1;
    }
    assert(bv.take(i as int) =~= bv);
    None
}

fn find_instance_contexts(ctx: &Vec<(String, usize)>, inst: &String) -> (r: Option<usize>)
    ensures
        match r {
            Some(i) => i < ctx@.len() && find_instance(
                ctx@.map_values(|e: (String, usize)| (e.0@, e.1)),
                inst@,
            ) == Some(i as int),
            None => find_instance(ctx@.map_values(|e: (String, usize)| (e.0@, e.1)), inst@) is None,
        },
{
    let ghost cv = ctx@.map_values(|e: (String, usize)| (e.0@, e.1));
    let mut i: usize = 0;
    assert(cv.take(0) =~= Seq::<(Seq<char>, usize)>::empty());
    while i < ctx.len()
        invariant
            i <= ctx@.len(),
            cv == ctx@.map_values(|e: (String, usize)| (e.0@, e.1)),
            find_instance(cv.take(i as int), inst@) is None,
        decreases ctx@.len() - i,
    {
        assert(cv.take(i + 1).drop_last() =~= cv.take(i as int));
        assert(cv.take(i + 1).last().0 == ctx@[i as int].0@);
        if str_eq(ctx[i].0.as_str(), inst.as_str()) {
            proof {
                lemma_find_instance_extends(cv, inst@, i + 1);
            }
            return Some(i);
        }
        i = i + 1;
    }
    assert(cv.take(i as int) =~= cv);
    None
}

proof fn lemma_find_instance_extends<T>(entries: Seq<(Seq<char>, T)>, inst: Seq<char>, k: int)
    requires
        0 < k <= entries.len(),
        find_instance(entries.take(k), inst) is Some,
    ensures
        find_instance(entries, inst) == find_instance(entries.take(k), inst),
    decreases entries.len() - k,
{
    if k < entries.len() {
        assert(entries.take(k + 1).drop_last() =~= entries.take(k));
        lemma_find_instance_extends(entries, inst, k + 1);
    } else {
        assert(entries.take(k) =~= entries);
    }
}

proof fn lemma_find_instance_bound<T>(entries: Seq<(Seq<char>, T)>, inst: Seq<char>)
    ensures
        find_instance(entries, inst) matches Some(i) ==> 0 <= i < entries.len() && entries[i].0 == inst,
    decreases entries.len(),
{
    if entries.len() > 0 {
        lemma_find_instance_bound(entries.drop_last(), inst);
    }
}

fn sum_activities(sessions: &Vec<StagedSession>) -> (r: Option<usize>)
    ensures
        match r {
            Some(n) => n == activity_total(sessions@),
            None => activity_total(sessions@) > usize::MAX,
        },
{
    let mut total: usize = 0;
    let mut i: usize = 0;
    assert(sessions@.take(0) =~= Seq::<StagedSession>::empty());
    while i < sessions.len()
        invariant
            i <= sessions@.len(),
            total == activity_total(sessions@.take(i as int)),
        decreases sessions@.len() - i,
    {
        assert(sessions@.take(i + 1).drop_last() =~= sessions@.take(i as int));
        match total.checked_add(sessions[i].activities.len()) {
            Some(t) => {
                total = t;
            },
            None => {
                proof {
                    lemma_activity_total_monotone(sessions@, i + 1);
                }
                return None;
            },
        }
        i = i + 1;
    }
    assert(sessions@.take(i as int) =~= sessions@);
    Some(total)
}

proof fn lemma_activity_total_monotone(s: Seq<StagedSession>, k: int)
    requires
        0 <= k <= s.len(),
    ensures
        activity_total(s.take(k)) <= activity_total(s),
    decreases s.len() - k,
{
    if k < s.len() {
        lemma_activity_total_monotone(s, k + 1);
        assert(s.take(k + 1).drop_last() =~= s.take(k));
    } else {
        assert(s.take(k) =~= s);
    }
}

fn without_exec(base: &Vec<String>, rs: &Vec<String>) -> (r: Vec<String>)
    ensures
        strs(r@) == without(strs(base@), strs(rs@)),
{
    let mut r: Vec<String> = Vec::new();
    let mut i: usize = 0;
    assert(strs(base@).take(0) =~= Seq::<Seq<char>>::empty());
    assert(strs(r@) =~= Seq::<Seq<char>>::empty());
    while i < base.len()
        invariant
            i <= base@.len(),
            strs(r@) == without(strs(base@).take(i as int), strs(rs@)),
        decreases base@.len() - i,
    {
        assert(strs(base@).take(i + 1).drop_last() =~= strs(base@).take(i as int));
        assert(strs(base@).take(i + 1).last() == base@[i as int]@);
        if !contains_str(rs, &base[i]) {
            let ghost before = strs(r@);
            r.push(base[i].clone());
            assert(strs(r@) =~= before.push(base@[i as int]@));
        }
        i = i + 1;
    }
    assert(strs(base@).take(base@.len() as int) =~= strs(base@));
    r
}

fn union_into_exec(base: &mut Vec<String>, xs: &Vec<String>)
    ensures
        strs(final(base)@) == union_into(strs(old(base)@), strs(xs@)),
{
    let ghost b0 = strs(base@);
    let mut i: usize = 0;
    assert(strs(xs@).take(0) =~= Seq::<Seq<char>>::empty());
    while i < xs.len()
        invariant
            i <= xs@.len(),
            b0 == strs(old(base)@),
            strs(base@) == union_into(b0, strs(xs@).take(i as int)),
        decreases xs@.len() - i,
    {
        assert(strs(xs@).take(i + 1).drop_last() =~= strs(xs@).take(i as int));
        assert(strs(xs@).take(i + 1).last() == xs@[i as int]@);
        if !contains_str(base, &xs[i]) {
            let ghost before = strs(base@);
            base.push(xs[i].clone());
            assert(strs(base@) =~= before.push(xs@[i as int]@));
        }
        i = i + 1;
    }
    assert(strs(xs@).take(xs@.len() as int) =~= strs(xs@));
}

fn clone_strings(v: &Vec<String>) -> (r: Vec<String>)
    ensures
        strs(r@) == strs(v@),
{
    let mut r: Vec<String> = Vec::new();
    let mut i: usize = 0;
    while i < v.len()
        invariant
            i <= v@.len(),
            strs(r@) == strs(v@).take(i as int),
        decreases v@.len() - i,
    {
        r.push(v[i].clone());
        assert(strs(v@).take(i + 1) =~= strs(v@).take(i as int).push(v@[i as int]@));
        assert(strs(r@) =~= strs(v@).take(i + 1));
        i = i + 1;
    }
    assert(strs(v@).take(v@.len() as int) =~= strs(v@));
    r
}

impl CanonicalArchiveBudget {
    /// Checks a payload against the archive limits and, when it fits, counts it.
    #[verifier::rlimit(40)]
    pub fn retain_payload(&mut self, payload: &ReconstructionPayload, limits: &CanonicalArchiveLimits) -> (r:
        Result<(), &'static str>)
        ensures
            crate::application::parse_budget::outcome(r) == retain_payload_spec(
                old(self).view_of(),
                session_ids_of(payload.sessions@),
                payload.sessions@,
                payload.instance_id@,
                payload.replace_all_instance_evidence,
                *limits,
            ),
            r is Ok ==> final(self).view_of() == retained_view(
                old(self).view_of(),
                session_ids_of(payload.sessions@),
                payload.sessions@,
                payload.instance_id@,
                payload.replace_all_instance_evidence,
            ),
            r is Err ==> *final(self) == *old(self),
    {
        let ghost b = self.view_of();
        let ghost p_ids = session_ids_of(payload.sessions@);
        let replace = payload.replace_all_instance_evidence;
        if self.already_over_limit {
            return Err("global canonical archive usage");
        }
        let incoming = dedup_ids(&payload.sessions);
        let by_index = find_instance_sessions(&self.session_ids_by_instance, &payload.instance_id);
        proof {
            lemma_find_instance_bound(b.by_instance, payload.instance_id@);
        }
        let removed: Vec<String> = if replace {
            match by_index {
                Some(i) => clone_strings(&self.session_ids_by_instance[i].session_ids),
                None => Vec::new(),
            }
        } else {
            Vec::new()
        };
        assert(strs(removed@) == replaced_ids(b, payload.instance_id@, replace));
        let retained: usize = if self.session_ids.len() >= removed.len() {
            self.session_ids.len() - removed.len()
        } else {
            0
        };
        let new_sessions = count_new_exec(&incoming, &self.session_ids, &removed);
        let after_sessions = match retained.checked_add(new_sessions) {
            Some(v) => v,
            None => return Err("global canonical session count"),
        };
        let ctx_index = find_instance_contexts(&self.contexts_by_instance, &payload.instance_id);
        proof {
            lemma_find_instance_bound(b.contexts_by_instance, payload.instance_id@);
        }
        let removed_contexts: usize = if replace {
            match ctx_index {
                Some(i) => self.contexts_by_instance[i].1,
                None => 0,
            }
        } else {
            0
        };
        let incoming_contexts = match sum_activities(&payload.sessions) {
            Some(v) => v,
            None => return Err("global canonical context count"),
        };
        let base_contexts: usize = if self.contexts >= removed_contexts {
            self.contexts - removed_contexts
        } else {
            0
        };
        let after_contexts = match base_contexts.checked_add(incoming_contexts) {
            Some(v) => v,
            None => return Err("global canonical context count"),
        };
        if after_sessions > limits.max_sessions {
            return Err("global canonical session count");
        }
        if after_contexts > limits.max_contexts {
            return Err("global canonical context count");
        }
        self.update(payload, incoming, removed, by_index, ctx_index, incoming_contexts, after_contexts);
        Ok(())
    }

    #[verifier::rlimit(40)]
    fn update(
        &mut self,
        payload: &ReconstructionPayload,
        incoming: Vec<String>,
        removed: Vec<String>,
        by_index: Option<usize>,
        ctx_index: Option<usize>,
        incoming_contexts: usize,
        after_contexts: usize,
    )
        requires
            strs(incoming@) == dedup(session_ids_of(payload.sessions@)),
            strs(removed@) == replaced_ids(
                old(self).view_of(),
                payload.instance_id@,
                payload.replace_all_instance_evidence,
            ),
            match by_index {
                Some(i) => i < old(self).session_ids_by_instance@.len() && find_instance(
                    old(self).view_of().by_instance,
                    payload.instance_id@,
                ) == Some(i as int),
                None => find_instance(old(self).view_of().by_instance, payload.instance_id@) is None,
            },
            match ctx_index {
                Some(i) => i < old(self).contexts_by_instance@.len() && find_instance(
                    old(self).view_of().contexts_by_instance,
                    payload.instance_id@,
                ) == Some(i as int),
                None => find_instance(old(self).view_of().contexts_by_instance, payload.instance_id@)
                    is None,
            },
            incoming_contexts == activity_total(payload.sessions@),
            after_contexts == contexts_after(
                old(self).view_of(),
                activity_total(payload.sessions@),
                payload.instance_id@,
                payload.replace_all_instance_evidence,
            ),
        ensures
            final(self).view_of() == retained_view(
                old(self).view_of(),
                session_ids_of(payload.sessions@),
                payload.sessions@,
                payload.instance_id@,
                payload.replace_all_instance_evidence,
            ),
    {
        let ghost b = self.view_of();
        let replace = payload.replace_all_instance_evidence;
        let inst = &payload.instance_id;
        if replace {
            if let Some(i) = by_index {
                self.session_ids_by_instance.remove(i);
                proof {
                    assert(self.view_of().by_instance =~= b.by_instance.remove(i as int));
                }
            }
            let kept = without_exec(&self.session_ids, &removed);
            self.session_ids = kept;
        } else {
            let kept = without_exec(&self.session_ids, &removed);
            proof {
                assert(strs(removed@) =~= Seq::<Seq<char>>::empty());
                lemma_without_nothing(b.ids);
            }
            self.session_ids = kept;
        }
        let ghost by0 = self.view_of().by_instance;
        assert(by0 == (if replace { remove_at(b.by_instance, find_instance(b.by_instance, inst@)) } else { b.by_instance }));
        let ghost ids0 = strs(self.session_ids@);
        union_into_exec(&mut self.session_ids, &incoming);
        match find_instance_sessions(&self.session_ids_by_instance, inst) {
            Some(i) => {
                let mut entry = self.session_ids_by_instance.remove(i);
                union_into_exec(&mut entry.session_ids, &incoming);
                self.session_ids_by_instance.insert(i, entry);
                proof {
                    lemma_find_instance_bound(by0, inst@);
                    assert(self.view_of().by_instance =~= by0.update(
                        i as int,
                        (inst@, union_into(by0[i as int].1, strs(incoming@))),
                    ));
                }
            },
            None => {
                let mut ids: Vec<String> = Vec::new();
                assert(strs(ids@) =~= Seq::<Seq<char>>::empty());
                union_into_exec(&mut ids, &incoming);
                self.session_ids_by_instance.push(InstanceSessions { instance_id: inst.clone(), session_ids: ids });
                proof {
                    assert(self.view_of().by_instance =~= by0.push((inst@, union_into(Seq::empty(), strs(incoming@)))));
                }
            },
        }
        self.contexts = after_contexts;
        let ghost c0 = b.contexts_by_instance;
        match ctx_index {
            Some(i) => {
                let value = if replace {
                    incoming_contexts
                } else {
                    self.contexts_by_instance[i].1.saturating_add(incoming_contexts)
                };
                let key = inst.clone();
                self.contexts_by_instance.set(i, (key, value));
                proof {
                    lemma_find_instance_bound(c0, inst@);
                    assert(self.view_of().contexts_by_instance =~= c0.update(i as int, (inst@, value)));
                }
            },
            None => {
                self.contexts_by_instance.push((inst.clone(), incoming_contexts));
                assert(self.view_of().contexts_by_instance =~= c0.push((inst@, incoming_contexts)));
            },
        }
        assert(self.view_of().ids == union_into(without(b.ids, replaced_ids(b, inst@, replace)), dedup(session_ids_of(payload.sessions@))));
    }
}

proof fn lemma_without_nothing(base: Seq<Seq<char>>)
    ensures
        without(base, Seq::empty()) == base,
    decreases base.len(),
{
    if base.len() > 0 {
        lemma_without_nothing(base.drop_last());
        assert(base.drop_last().push(base.last()) =~= base);
    }
}


/// Each identifier of `xs` that `base` lacks, counted.
pub open spec fn count_absent(xs: Seq<Seq<char>>, base: Seq<Seq<char>>) -> nat
    decreases xs.len(),
{
    if xs.len() == 0 {
        0
    } else {
        count_absent(xs.drop_last(), base) + if base.contains(xs.last()) {
            0nat
        } else {
            1nat
        }
    }
}

/// No identifier occurs twice among the keys of `entries`.
pub open spec fn keys_unique<T>(entries: Seq<(Seq<char>, T)>) -> bool {
    forall|i: int, j: int|
        0 <= i < entries.len() && 0 <= j < entries.len() && i != j ==> entries[i].0 != entries[j].0
}

/// The invariant the archive's sets keep: no session id occurs twice in the
/// archive or in an instance, and each instance has one entry.
pub open spec fn budget_wf(b: BudgetView) -> bool {
    &&& b.ids.no_duplicates()
    &&& keys_unique(b.by_instance)
    &&& keys_unique(b.contexts_by_instance)
    &&& forall|i: int| 0 <= i < b.by_instance.len() ==> (#[trigger] b.by_instance[i]).1.no_duplicates()
}

proof fn lemma_push_contains(s: Seq<Seq<char>>, a: Seq<char>)
    ensures
        forall|x: Seq<char>| #[trigger] s.push(a).contains(x) <==> s.contains(x) || x == a,
{
    assert forall|x: Seq<char>| #[trigger] s.push(a).contains(x) <==> s.contains(x) || x == a by {
        if s.push(a).contains(x) {
            let k = choose|k: int| 0 <= k < s.push(a).len() && s.push(a)[k] == x;
            if k < s.len() {
                assert(s[k] == x);
            }
        }
        if s.contains(x) {
            let k = choose|k: int| 0 <= k < s.len() && s[k] == x;
            assert(s.push(a)[k] == x);
        }
        if x == a {
            assert(s.push(a)[s.len() as int] == x);
        }
    }
}

proof fn lemma_last_split(xs: Seq<Seq<char>>)
    requires
        xs.len() > 0,
    ensures
        xs == xs.drop_last().push(xs.last()),
        forall|x: Seq<char>| #[trigger] xs.contains(x) <==> xs.drop_last().contains(x) || x == xs.last(),
        xs.no_duplicates() ==> xs.drop_last().no_duplicates() && !xs.drop_last().contains(xs.last()),
{
    assert(xs =~= xs.drop_last().push(xs.last()));
    lemma_push_contains(xs.drop_last(), xs.last());
    if xs.no_duplicates() {
        if xs.drop_last().contains(xs.last()) {
            let k = choose|k: int| 0 <= k < xs.drop_last().len() && xs.drop_last()[k] == xs.last();
            assert(xs[k] == xs[xs.len() - 1]);
        }
    }
}

proof fn lemma_push_no_dup(s: Seq<Seq<char>>, a: Seq<char>)
    requires
        s.no_duplicates(),
        !s.contains(a),
    ensures
        s.push(a).no_duplicates(),
{
    assert forall|i: int, j: int|
        0 <= i < s.push(a).len() && 0 <= j < s.push(a).len() && i != j implies s.push(a)[i] != s.push(a)[j] by {
        if i < s.len() && j == s.len() {
            assert(s.contains(s[i]));
        }
        if j < s.len() && i == s.len() {
            assert(s.contains(s[j]));
        }
    }
}

proof fn lemma_union_into(base: Seq<Seq<char>>, xs: Seq<Seq<char>>)
    ensures
        forall|x: Seq<char>| #[trigger] union_into(base, xs).contains(x) <==> base.contains(x) || xs.contains(x),
        base.no_duplicates() ==> union_into(base, xs).no_duplicates(),
        xs.no_duplicates() ==> union_into(base, xs).len() == base.len() + count_absent(xs, base),
    decreases xs.len(),
{
    if xs.len() > 0 {
        lemma_union_into(base, xs.drop_last());
        lemma_last_split(xs);
        let u = union_into(base, xs.drop_last());
        lemma_push_contains(u, xs.last());
        if base.no_duplicates() && !u.contains(xs.last()) {
            lemma_push_no_dup(u, xs.last());
        }
    }
}

proof fn lemma_without(base: Seq<Seq<char>>, rs: Seq<Seq<char>>)
    ensures
        forall|x: Seq<char>| #[trigger] without(base, rs).contains(x) <==> base.contains(x) && !rs.contains(x),
        base.no_duplicates() ==> without(base, rs).no_duplicates(),
    decreases base.len(),
{
    if base.len() > 0 {
        lemma_without(base.drop_last(), rs);
        lemma_last_split(base);
        let w = without(base.drop_last(), rs);
        lemma_push_contains(w, base.last());
        if base.no_duplicates() && !rs.contains(base.last()) {
            lemma_push_no_dup(w, base.last());
        }
    }
}

proof fn lemma_dedup(s: Seq<Seq<char>>)
    ensures
        dedup(s).no_duplicates(),
    decreases s.len(),
{
    if s.len() > 0 {
        lemma_dedup(s.drop_last());
        let d = dedup(s.drop_last());
        if !d.contains(s.last()) {
            lemma_push_no_dup(d, s.last());
        }
    }
}

proof fn lemma_count_new_absent(
    xs: Seq<Seq<char>>,
    ids: Seq<Seq<char>>,
    removed: Seq<Seq<char>>,
    w: Seq<Seq<char>>,
)
    requires
        forall|x: Seq<char>| #[trigger] w.contains(x) <==> ids.contains(x) && !removed.contains(x),
    ensures
        count_new(xs, ids, removed) == count_absent(xs, w),
    decreases xs.len(),
{
    if xs.len() > 0 {
        lemma_count_new_absent(xs.drop_last(), ids, removed, w);
        assert(w.contains(xs.last()) <==> ids.contains(xs.last()) && !removed.contains(xs.last()));
    }
}

proof fn lemma_without_len(base: Seq<Seq<char>>, rs: Seq<Seq<char>>)
    requires
        base.no_duplicates(),
        rs.no_duplicates(),
        forall|x: Seq<char>| #[trigger] rs.contains(x) ==> base.contains(x),
    ensures
        without(base, rs).len() + rs.len() == base.len(),
{
    let w = without(base, rs);
    lemma_without(base, rs);
    vstd::seq_lib::seq_to_set_is_finite(w);
    vstd::seq_lib::seq_to_set_is_finite(rs);
    base.unique_seq_to_set();
    rs.unique_seq_to_set();
    w.unique_seq_to_set();
    assert(base.to_set() =~= w.to_set() + rs.to_set());
    assert(w.to_set().disjoint(rs.to_set()));
    vstd::set_lib::lemma_set_disjoint_lens(w.to_set(), rs.to_set());
}

proof fn lemma_find_instance_none<T>(entries: Seq<(Seq<char>, T)>, inst: Seq<char>)
    ensures
        find_instance(entries, inst) is None ==> forall|k: int|
            0 <= k < entries.len() ==> (#[trigger] entries[k]).0 != inst,
    decreases entries.len(),
{
    if entries.len() > 0 {
        lemma_find_instance_none(entries.drop_last(), inst);
        if find_instance(entries, inst) is None {
            assert forall|k: int| 0 <= k < entries.len() implies (#[trigger] entries[k]).0 != inst by {
                if k < entries.len() - 1 {
                    assert(entries.drop_last()[k] == entries[k]);
                }
            }
        }
    }
}

/// The number of sessions that a payload is admitted with is the number the
/// archive holds once it is promoted, wherever the ids that a replacing
/// payload removes are all in the archive.
pub proof fn law_admitted_session_count_is_held(
    b: BudgetView,
    p_ids: Seq<Seq<char>>,
    sessions: Seq<StagedSession>,
    inst: Seq<char>,
    replace: bool,
)
    requires
        budget_wf(b),
        forall|x: Seq<char>| #[trigger] replaced_ids(b, inst, replace).contains(x) ==> b.ids.contains(x),
    ensures
        retained_view(b, p_ids, sessions, inst, replace).ids.len() == sessions_after(b, p_ids, inst, replace),
{
    let removed = replaced_ids(b, inst, replace);
    lemma_find_instance_bound(b.by_instance, inst);
    assert(removed.no_duplicates());
    lemma_without_len(b.ids, removed);
    let w = without(b.ids, removed);
    lemma_without(b.ids, removed);
    let incoming = dedup(p_ids);
    lemma_dedup(p_ids);
    lemma_union_into(w, incoming);
    lemma_count_new_absent(incoming, b.ids, removed, w);
}

/// Retaining a payload keeps the archive's invariant.
pub proof fn law_retained_view_keeps_wf(
    b: BudgetView,
    p_ids: Seq<Seq<char>>,
    sessions: Seq<StagedSession>,
    inst: Seq<char>,
    replace: bool,
)
    requires
        budget_wf(b),
    ensures
        budget_wf(retained_view(b, p_ids, sessions, inst, replace)),
{
    let r = retained_view(b, p_ids, sessions, inst, replace);
    let incoming = dedup(p_ids);
    lemma_dedup(p_ids);
    let removed = replaced_ids(b, inst, replace);
    lemma_without(b.ids, removed);
    lemma_union_into(without(b.ids, removed), incoming);
    lemma_find_instance_bound(b.by_instance, inst);
    let by0 = if replace { remove_at(b.by_instance, find_instance(b.by_instance, inst)) } else { b.by_instance };
    assert(keys_unique(by0) && forall|i: int| 0 <= i < by0.len() ==> (#[trigger] by0[i]).1.no_duplicates()) by {
        if replace {
            if let Some(k) = find_instance(b.by_instance, inst) {
                assert forall|i: int| 0 <= i < by0.len() implies by0[i] == b.by_instance[if i < k { i } else { i + 1 }] by {}
                assert forall|i: int, j: int|
                    0 <= i < by0.len() && 0 <= j < by0.len() && i != j implies by0[i].0 != by0[j].0 by {
                    assert(by0[i] == b.by_instance[if i < k { i } else { i + 1 }]);
                    assert(by0[j] == b.by_instance[if j < k { j } else { j + 1 }]);
                }
                assert forall|i: int| 0 <= i < by0.len() implies (#[trigger] by0[i]).1.no_duplicates() by {
                    assert(by0[i] == b.by_instance[if i < k { i } else { i + 1 }]);
                }
            }
        }
    }
    lemma_find_instance_bound(by0, inst);
    lemma_find_instance_none(by0, inst);
    match find_instance(by0, inst) {
        Some(i) => {
            lemma_union_into(by0[i].1, incoming);
            assert(keys_unique(r.by_instance));
        },
        None => {
            lemma_union_into(Seq::empty(), incoming);
            assert(Seq::<Seq<char>>::empty().no_duplicates());
            assert(keys_unique(r.by_instance)) by {
                assert forall|i: int, j: int|
                    0 <= i < r.by_instance.len() && 0 <= j < r.by_instance.len() && i != j implies r.by_instance[i].0
                        != r.by_instance[j].0 by {
                    if i < by0.len() && j < by0.len() {
                    } else if i == by0.len() {
                        assert(by0[j].0 != inst);
                    } else {
                        assert(by0[i].0 != inst);
                    }
                }
            }
        },
    }
    let c = b.contexts_by_instance;
    lemma_find_instance_bound(c, inst);
    lemma_find_instance_none(c, inst);
    match find_instance(c, inst) {
        Some(i) => {
            assert(keys_unique(r.contexts_by_instance));
        },
        None => {
            assert(keys_unique(r.contexts_by_instance)) by {
                assert forall|i: int, j: int|
                    0 <= i < r.contexts_by_instance.len() && 0 <= j < r.contexts_by_instance.len() && i != j
                        implies r.contexts_by_instance[i].0 != r.contexts_by_instance[j].0 by {
                    if i < c.len() && j < c.len() {
                    } else if i == c.len() {
                        assert(c[j].0 != inst);
                    } else {
                        assert(c[i].0 != inst);
                    }
                }
            }
        },
    }
}

/// A stored count as a `usize`: negative counts are zero, huge ones saturate.
pub open spec fn clamp_count(n: i64) -> usize {
    if n < 0 { 0 } else if n > usize::MAX { usize::MAX } else { n as usize }
}

fn clamp_count_exec(n: i64) -> (r: usize)
    ensures
        r == clamp_count(n),
{
    if n < 0 {
        0
    } else if n as u64 > usize::MAX as u64 {
        usize::MAX
    } else {
        n as usize
    }
}

pub open spec fn row_ids(rows: Seq<(String, String)>) -> Seq<Seq<char>> {
    rows.map_values(|r: (String, String)| r.0@)
}

/// The archive's sessions grouped by instance, in first-seen order.
pub open spec fn loaded_by_instance(rows: Seq<(Seq<char>, Seq<char>)>) -> Seq<(Seq<char>, Seq<Seq<char>>)>
    decreases rows.len(),
{
    if rows.len() == 0 {
        Seq::empty()
    } else {
        let by = loaded_by_instance(rows.drop_last());
        let (sid, iid) = rows.last();
        match find_instance(by, iid) {
            Some(i) => by.update(i, (iid, union_into(by[i].1, seq![sid]))),
            None => by.push((iid, seq![sid])),
        }
    }
}

/// The archive's contexts by instance; a later row of an instance replaces an earlier one.
pub open spec fn loaded_contexts(rows: Seq<(Seq<char>, i64)>) -> Seq<(Seq<char>, usize)>
    decreases rows.len(),
{
    if rows.len() == 0 {
        Seq::empty()
    } else {
        let cs = loaded_contexts(rows.drop_last());
        let (iid, n) = rows.last();
        match find_instance(cs, iid) {
            Some(i) => cs.update(i, (iid, clamp_count(n))),
            None => cs.push((iid, clamp_count(n))),
        }
    }
}

pub open spec fn pair_rows(rows: Seq<(String, String)>) -> Seq<(Seq<char>, Seq<char>)> {
    rows.map_values(|r: (String, String)| (r.0@, r.1@))
}

pub open spec fn count_rows(rows: Seq<(String, i64)>) -> Seq<(Seq<char>, i64)> {
    rows.map_values(|r: (String, i64)| (r.0@, r.1))
}

/// The budget of the archive as stored: over its limits already when its
/// counts are, else its session ids (each once), its sessions by instance
/// and its contexts by instance.
pub open spec fn loaded_view(
    session_count: i64,
    context_count: i64,
    session_rows: Seq<(String, String)>,
    context_rows: Seq<(String, i64)>,
    l: CanonicalArchiveLimits,
) -> BudgetView {
    if clamp_count(session_count) > l.max_sessions || clamp_count(context_count) > l.max_contexts {
        BudgetView {
            ids: Seq::empty(),
            by_instance: Seq::empty(),
            contexts: clamp_count(context_count),
            contexts_by_instance: Seq::empty(),
            over: true,
        }
    } else {
        BudgetView {
            ids: dedup(row_ids(session_rows)),
            by_instance: loaded_by_instance(pair_rows(session_rows)),
            contexts: clamp_count(context_count),
            contexts_by_instance: loaded_contexts(count_rows(context_rows)),
            over: false,
        }
    }
}

proof fn lemma_keys_unique_update<T>(entries: Seq<(Seq<char>, T)>, i: int, v: T)
    requires
        keys_unique(entries),
        0 <= i < entries.len(),
    ensures
        keys_unique(entries.update(i, (entries[i].0, v))),
{
}

proof fn lemma_keys_unique_push<T>(entries: Seq<(Seq<char>, T)>, k: Seq<char>, v: T)
    requires
        keys_unique(entries),
        find_instance(entries, k) is None,
    ensures
        keys_unique(entries.push((k, v))),
{
    lemma_find_instance_none(entries, k);
}

impl CanonicalArchiveBudget {
    /// The budget of the archive as stored, from its session and context
    /// counts and its rows (session id and instance; instance and context count).
    pub fn from_archive(
        session_count: i64,
        context_count: i64,
        session_rows: &Vec<(String, String)>,
        context_rows: &Vec<(String, i64)>,
        limits: &CanonicalArchiveLimits,
    ) -> (r: CanonicalArchiveBudget)
        ensures
            r.view_of() == loaded_view(session_count, context_count, session_rows@, context_rows@, *limits),
            budget_wf(r.view_of()),
    {
        let sessions = clamp_count_exec(session_count);
        let contexts = clamp_count_exec(context_count);
        let mut budget = CanonicalArchiveBudget::new();
        budget.contexts = contexts;
        if sessions > limits.max_sessions || contexts > limits.max_contexts {
            budget.already_over_limit = true;
            return budget;
        }
        let ghost ids_all = row_ids(session_rows@);
        let ghost pairs = pair_rows(session_rows@);
        let mut i: usize = 0;
        assert(ids_all.take(0) =~= Seq::<Seq<char>>::empty());
        assert(pairs.take(0) =~= Seq::<(Seq<char>, Seq<char>)>::empty());
        while i < session_rows.len()
            invariant
                i <= session_rows@.len(),
                ids_all == row_ids(session_rows@),
                pairs == pair_rows(session_rows@),
                budget.contexts == contexts,
                !budget.already_over_limit,
                budget.view_of().contexts_by_instance == Seq::<(Seq<char>, usize)>::empty(),
                budget.view_of().ids == dedup(ids_all.take(i as int)),
                budget.view_of().by_instance == loaded_by_instance(pairs.take(i as int)),
                budget_wf(budget.view_of()),
            decreases session_rows@.len() - i,
        {
            assert(ids_all.take(i + 1).drop_last() =~= ids_all.take(i as int));
            assert(ids_all.take(i + 1).last() == session_rows@[i as int].0@);
            assert(pairs.take(i + 1).drop_last() =~= pairs.take(i as int));
            assert(pairs.take(i + 1).last() == (session_rows@[i as int].0@, session_rows@[i as int].1@));
            let ghost b0 = budget.view_of();
            let sid = &session_rows[i].0;
            let iid = &session_rows[i].1;
            if !contains_str(&budget.session_ids, sid) {
                let ghost before = strs(budget.session_ids@);
                budget.session_ids.push(sid.clone());
                assert(strs(budget.session_ids@) =~= before.push(sid@));
                proof {
                    lemma_push_no_dup(before, sid@);
                }
            }
            let mut one: Vec<String> = Vec::new();
            one.push(sid.clone());
            assert(strs(one@) =~= seq![sid@]);
            match find_instance_sessions(&budget.session_ids_by_instance, iid) {
                Some(k) => {
                    let mut entry = budget.session_ids_by_instance.remove(k);
                    let ghost old_ids = strs(entry.session_ids@);
                    union_into_exec(&mut entry.session_ids, &one);
                    proof {
                        lemma_find_instance_bound(b0.by_instance, iid@);
                        lemma_union_into(old_ids, seq![sid@]);
                        assert(b0.by_instance[k as int].1 == old_ids);
                        assert(b0.by_instance[k as int].0 == iid@);
                    }
                    let ghost ev = (entry.instance_id@, strs(entry.session_ids@));
                    budget.session_ids_by_instance.insert(k, entry);
                    assert(budget.view_of().by_instance =~= b0.by_instance.update(k as int, ev));
                    proof {
                        lemma_keys_unique_update(b0.by_instance, k as int, strs(entry.session_ids@));
                        assert(b0.by_instance.update(k as int, ev) =~= b0.by_instance.update(
                            k as int,
                            (b0.by_instance[k as int].0, ev.1),
                        ));
                    }
                },
                None => {
                    let entry = InstanceSessions { instance_id: iid.clone(), session_ids: one };
                    let ghost ev = (iid@, seq![sid@]);
                    budget.session_ids_by_instance.push(entry);
                    assert(budget.view_of().by_instance =~= b0.by_instance.push(ev));
                    proof {
                        lemma_keys_unique_push(b0.by_instance, iid@, seq![sid@]);
                        assert(seq![sid@].no_duplicates());
                    }
                },
            }
            i += 1;
        }
        assert(ids_all.take(session_rows@.len() as int) =~= ids_all);
        assert(pairs.take(session_rows@.len() as int) =~= pairs);
        let ghost counts = count_rows(context_rows@);
        let mut j: usize = 0;
        assert(counts.take(0) =~= Seq::<(Seq<char>, i64)>::empty());
        while j < context_rows.len()
            invariant
                j <= context_rows@.len(),
                counts == count_rows(context_rows@),
                budget.contexts == contexts,
                !budget.already_over_limit,
                budget.view_of().ids == dedup(ids_all),
                budget.view_of().by_instance == loaded_by_instance(pairs),
                budget.view_of().contexts_by_instance == loaded_contexts(counts.take(j as int)),
                budget_wf(budget.view_of()),
            decreases context_rows@.len() - j,
        {
            assert(counts.take(j + 1).drop_last() =~= counts.take(j as int));
            assert(counts.take(j + 1).last() == (context_rows@[j as int].0@, context_rows@[j as int].1));
            let ghost b0 = budget.view_of();
            let iid = &context_rows[j].0;
            let n = clamp_count_exec(context_rows[j].1);
            match find_instance_contexts(&budget.contexts_by_instance, iid) {
                Some(k) => {
                    let (name, _) = budget.contexts_by_instance.remove(k);
                    let ghost nv = name@;
                    budget.contexts_by_instance.insert(k, (name, n));
                    proof {
                        lemma_find_instance_bound(b0.contexts_by_instance, iid@);
                        lemma_keys_unique_update(b0.contexts_by_instance, k as int, n);
                    }
                    assert(budget.view_of().contexts_by_instance =~= b0.contexts_by_instance.update(
                        k as int,
                        (iid@, n),
                    ));
                },
                None => {
                    budget.contexts_by_instance.push((iid.clone(), n));
                    proof {
                        lemma_keys_unique_push(b0.contexts_by_instance, iid@, n);
                    }
                    assert(budget.view_of().contexts_by_instance =~= b0.contexts_by_instance.push((iid@, n)));
                },
            }
            j += 1;
        }
        assert(counts.take(context_rows@.len() as int) =~= counts);
        budget
    }
}

} // verus!
