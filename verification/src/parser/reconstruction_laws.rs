//! Properties of session reconstruction that hold across calls.

use vstd::prelude::*;

use crate::calendar::OffsetDateTime;
use crate::parser::log_parser::EvidenceView;
use crate::parser::minecraft_log::EventView;
use crate::parser::session_reconstruction::{
    choose_tail_spec, event_spec, evidence_run, finish_spec, initial_run, insert_index, interrupted_end,
    is_bootstrap_spec, lex_lt, log_le, log_step_spec, prepare_spec, reconstruct_spec, run_logs, sat_add64,
    sorted_indices, tail_end, BuilderView, EndCandidate, LogView, ReconstructedExitKind,
    ReconstructionDiagnostics, ReconstructionPolicy, ResultView, RunState, SessionEndBoundary, SessionView,
    destination_spec, link_spec, observe_spec, startup_spec, terminal_spec, with_diagnostics, DestinationView,
    SessionEvidenceRole,
};

verus! {

broadcast use vstd::seq_lib::group_to_multiset_ensures;

/// `lex_lt` never holds both ways.
pub proof fn lemma_lex_lt_asymmetric(a: Seq<char>, b: Seq<char>)
    ensures
        !(lex_lt(a, b) && lex_lt(b, a)),
    decreases a.len(),
{
    if a.len() > 0 && b.len() > 0 && a[0] == b[0] {
        lemma_lex_lt_asymmetric(a.drop_first(), b.drop_first());
    }
}

/// Two different sequences are ordered one way or the other.
pub proof fn lemma_lex_lt_total(a: Seq<char>, b: Seq<char>)
    ensures
        a == b || lex_lt(a, b) || lex_lt(b, a),
    decreases a.len(),
{
    if a.len() == 0 {
        if b.len() == 0 {
            assert(a =~= b);
        }
    } else if b.len() > 0 && a[0] == b[0] {
        lemma_lex_lt_total(a.drop_first(), b.drop_first());
        if a.drop_first() == b.drop_first() {
            assert(a =~= seq![a[0]] + a.drop_first());
            assert(b =~= seq![b[0]] + b.drop_first());
        }
    } else if b.len() > 0 {
        vstd::utf8::char_u32_cast(a[0], a[0] as u32);
        vstd::utf8::char_u32_cast(b[0], b[0] as u32);
    }
}

pub proof fn lemma_lex_lt_transitive(a: Seq<char>, b: Seq<char>, c: Seq<char>)
    requires
        lex_lt(a, b),
        lex_lt(b, c),
    ensures
        lex_lt(a, c),
    decreases a.len(),
{
    if a.len() > 0 && a[0] == b[0] && b[0] == c[0] {
        lemma_lex_lt_transitive(a.drop_first(), b.drop_first(), c.drop_first());
    }
}

/// The order in which reconstruction takes logs: by source order, then source id.
pub open spec fn log_key_le(a: LogView, b: LogView) -> bool {
    a.source_order < b.source_order || (a.source_order == b.source_order && !lex_lt(
        b.source_id,
        a.source_id,
    ))
}

pub proof fn lemma_key_le_total(a: LogView, b: LogView)
    ensures
        log_key_le(a, b) || log_key_le(b, a),
{
    lemma_lex_lt_asymmetric(a.source_id, b.source_id);
}

pub proof fn lemma_key_le_transitive(a: LogView, b: LogView, c: LogView)
    requires
        log_key_le(a, b),
        log_key_le(b, c),
    ensures
        log_key_le(a, c),
{
    if a.source_order == b.source_order && b.source_order == c.source_order {
        if lex_lt(c.source_id, a.source_id) {
            lemma_lex_lt_total(a.source_id, b.source_id);
            if lex_lt(a.source_id, b.source_id) {
                lemma_lex_lt_transitive(c.source_id, a.source_id, b.source_id);
            }
        }
    }
}

/// Logs that sort at the same place share source order and source id.
pub proof fn lemma_key_le_antisymmetric(a: LogView, b: LogView)
    requires
        log_key_le(a, b),
        log_key_le(b, a),
    ensures
        a.source_order == b.source_order,
        a.source_id == b.source_id,
{
    lemma_lex_lt_total(a.source_id, b.source_id);
}

/// Stable insertion of a log after every log that sorts no later.
pub open spec fn insert_log(s: Seq<LogView>, x: LogView) -> Seq<LogView>
    decreases s.len(),
{
    if s.len() == 0 {
        seq![x]
    } else if log_key_le(s.last(), x) {
        s.push(x)
    } else {
        insert_log(s.drop_last(), x).push(s.last())
    }
}

/// The logs in the order reconstruction applies them.
pub open spec fn sort_logs(s: Seq<LogView>) -> Seq<LogView>
    decreases s.len(),
{
    if s.len() == 0 {
        Seq::empty()
    } else {
        insert_log(sort_logs(s.drop_last()), s.last())
    }
}

pub open spec fn sorted_by_key(s: Seq<LogView>) -> bool {
    forall|i: int, j: int| 0 <= i < j < s.len() ==> log_key_le(#[trigger] s[i], #[trigger] s[j])
}

pub open spec fn pick(logs: Seq<LogView>, idx: Seq<int>) -> Seq<LogView> {
    idx.map_values(|i: int| logs[i])
}

proof fn lemma_insert_index_picks(logs: Seq<LogView>, s: Seq<int>, x: int)
    ensures
        pick(logs, insert_index(logs, s, x)) =~= insert_log(pick(logs, s), logs[x]),
    decreases s.len(),
{
    if s.len() == 0 {
    } else {
        assert(pick(logs, s).last() == logs[s.last()]);
        assert(pick(logs, s.drop_last()) =~= pick(logs, s).drop_last());
        if log_le(logs, s.last(), x) {
            assert(pick(logs, s.push(x)) =~= pick(logs, s).push(logs[x]));
        } else {
            lemma_insert_index_picks(logs, s.drop_last(), x);
            let r = insert_index(logs, s.drop_last(), x);
            assert(pick(logs, r.push(s.last())) =~= pick(logs, r).push(logs[s.last()]));
        }
    }
}

proof fn lemma_sorted_indices_pick(logs: Seq<LogView>, n: nat)
    requires
        n <= logs.len(),
    ensures
        pick(logs, sorted_indices(logs, n)) =~= sort_logs(logs.take(n as int)),
    decreases n,
{
    if n > 0 {
        lemma_sorted_indices_pick(logs, (n - 1) as nat);
        lemma_insert_index_picks(logs, sorted_indices(logs, (n - 1) as nat), n - 1);
        assert(logs.take(n as int).drop_last() =~= logs.take(n - 1));
        assert(logs.take(n as int).last() == logs[n - 1]);
    }
}

/// The first `n` logs of an already ordered list applied to the initial state.
pub open spec fn run_sorted(s: Seq<LogView>, policy: ReconstructionPolicy, n: nat) -> RunState
    decreases n,
{
    if n == 0 {
        initial_run()
    } else {
        log_step_spec(run_sorted(s, policy, (n - 1) as nat), s[n - 1], policy)
    }
}

proof fn lemma_run_logs_sorted(logs: Seq<LogView>, policy: ReconstructionPolicy, n: nat)
    requires
        n <= logs.len(),
    ensures
        run_logs(logs, policy, n) == run_sorted(sort_logs(logs), policy, n),
    decreases n,
{
    if n > 0 {
        lemma_run_logs_sorted(logs, policy, (n - 1) as nat);
        lemma_sorted_indices_pick(logs, logs.len());
        assert(logs.take(logs.len() as int) =~= logs);
        let order = sorted_indices(logs, logs.len());
        crate::parser::session_reconstruction::lemma_sorted_indices_bounds(logs, logs.len());
        assert(pick(logs, order)[n - 1] == logs[order[n - 1]]);
    }
}

proof fn lemma_insert_log_facts(s: Seq<LogView>, x: LogView)
    requires
        sorted_by_key(s),
    ensures
        sorted_by_key(insert_log(s, x)),
        insert_log(s, x).to_multiset() =~= s.to_multiset().insert(x),
    decreases s.len(),
{
    if s.len() == 0 {
        assert(seq![x] =~= Seq::<LogView>::empty().push(x));
    } else if log_key_le(s.last(), x) {
        let r = s.push(x);
        assert forall|i: int, j: int| 0 <= i < j < r.len() implies log_key_le(
            #[trigger] r[i],
            #[trigger] r[j],
        ) by {
            if j == s.len() {
                if i < s.len() - 1 {
                    lemma_key_le_transitive(s[i], s.last(), x);
                }
            }
        }
    } else {
        let t = s.drop_last();
        assert(sorted_by_key(t));
        lemma_insert_log_facts(t, x);
        let r0 = insert_log(t, x);
        let r = r0.push(s.last());
        lemma_key_le_total(s.last(), x);
        assert forall|i: int, j: int| 0 <= i < j < r.len() implies log_key_le(
            #[trigger] r[i],
            #[trigger] r[j],
        ) by {
            if j == r0.len() {
                let y = r0[i];
                assert(r0.to_multiset().count(y) > 0);
                assert(r0.contains(y));
                if y != x {
                    assert(t.to_multiset().count(y) > 0);
                    assert(t.contains(y));
                    let k = choose|k: int| 0 <= k < t.len() && t[k] == y;
                    assert(s[k] == y);
                }
            }
        }
        assert(s =~= t.push(s.last()));
    }
}

proof fn lemma_sort_logs_facts(s: Seq<LogView>)
    ensures
        sorted_by_key(sort_logs(s)),
        sort_logs(s).to_multiset() =~= s.to_multiset(),
    decreases s.len(),
{
    if s.len() > 0 {
        lemma_sort_logs_facts(s.drop_last());
        lemma_insert_log_facts(sort_logs(s.drop_last()), s.last());
        assert(s =~= s.drop_last().push(s.last()));
    }
}

/// Logs that share source order and source id are the same log.
pub open spec fn keys_identify(s: Seq<LogView>) -> bool {
    forall|i: int, j: int|
        0 <= i < s.len() && 0 <= j < s.len() && (#[trigger] s[i]).source_order == (
        #[trigger] s[j]).source_order && s[i].source_id == s[j].source_id ==> s[i] == s[j]
}

proof fn lemma_sorted_unique(s: Seq<LogView>, t: Seq<LogView>)
    requires
        sorted_by_key(s),
        sorted_by_key(t),
        s.to_multiset() == t.to_multiset(),
        keys_identify(s),
    ensures
        s == t,
    decreases s.len(),
{
    assert(s.len() == s.to_multiset().len());
    assert(t.len() == t.to_multiset().len());
    if s.len() > 0 {
        let a = s[0];
        let b = t[0];
        assert(t.to_multiset().count(b) > 0);
        assert(s.contains(b));
        let i = choose|i: int| 0 <= i < s.len() && s[i] == b;
        assert(s.to_multiset().count(a) > 0);
        assert(t.contains(a));
        let j = choose|j: int| 0 <= j < t.len() && t[j] == a;
        if a != b {
            assert(log_key_le(s[0], s[i]));
            assert(log_key_le(t[0], t[j]));
            lemma_key_le_antisymmetric(a, b);
            assert(s[0] == s[i]);
        }
        let s1 = s.drop_first();
        let t1 = t.drop_first();
        assert(s.remove(0) =~= s1);
        assert(t.remove(0) =~= t1);
        assert(s1.to_multiset() == t1.to_multiset());
        assert(sorted_by_key(s1)) by {
            assert forall|p: int, q: int| 0 <= p < q < s1.len() implies log_key_le(
                #[trigger] s1[p],
                #[trigger] s1[q],
            ) by {
                assert(s1[p] == s[p + 1] && s1[q] == s[q + 1]);
            }
        }
        assert(sorted_by_key(t1)) by {
            assert forall|p: int, q: int| 0 <= p < q < t1.len() implies log_key_le(
                #[trigger] t1[p],
                #[trigger] t1[q],
            ) by {
                assert(t1[p] == t[p + 1] && t1[q] == t[q + 1]);
            }
        }
        assert(keys_identify(s1)) by {
            assert forall|p: int, q: int|
                0 <= p < s1.len() && 0 <= q < s1.len() && (#[trigger] s1[p]).source_order == (
                #[trigger] s1[q]).source_order && s1[p].source_id == s1[q].source_id implies s1[p]
                == s1[q] by {
                assert(s1[p] == s[p + 1] && s1[q] == s[q + 1]);
            }
        }
        lemma_sorted_unique(s1, t1);
        assert(s =~= seq![a] + s1);
        assert(t =~= seq![b] + t1);
    }
}

proof fn lemma_keys_identify_sorted(s: Seq<LogView>)
    requires
        keys_identify(s),
    ensures
        keys_identify(sort_logs(s)),
{
    lemma_sort_logs_facts(s);
    let r = sort_logs(s);
    assert forall|p: int, q: int|
        0 <= p < r.len() && 0 <= q < r.len() && (#[trigger] r[p]).source_order == (
        #[trigger] r[q]).source_order && r[p].source_id == r[q].source_id implies r[p] == r[q] by {
        assert(r.to_multiset().count(r[p]) > 0);
        assert(r.to_multiset().count(r[q]) > 0);
        assert(s.contains(r[p]));
        assert(s.contains(r[q]));
        let i = choose|i: int| 0 <= i < s.len() && s[i] == r[p];
        let j = choose|j: int| 0 <= j < s.len() && s[j] == r[q];
    }
}

/// Reconstruction does not depend on the order in which the logs are handed
/// in: any rearrangement of the same logs gives the same sessions and the same
/// diagnostics, as long as no two different logs share both their source
/// order and their source id.
pub proof fn law_reconstruction_ignores_input_order(
    a: Seq<LogView>,
    b: Seq<LogView>,
    policy: ReconstructionPolicy,
)
    requires
        a.to_multiset() == b.to_multiset(),
        keys_identify(a),
    ensures
        reconstruct_spec(a, policy) == reconstruct_spec(b, policy),
{
    lemma_sort_logs_facts(a);
    lemma_sort_logs_facts(b);
    lemma_keys_identify_sorted(a);
    lemma_sorted_unique(sort_logs(a), sort_logs(b));
    assert(a.len() == a.to_multiset().len());
    assert(b.len() == b.to_multiset().len());
    lemma_run_logs_sorted(a, policy, a.len());
    lemma_run_logs_sorted(b, policy, b.len());
}

proof fn lemma_run_sorted_prefix(s: Seq<LogView>, t: Seq<LogView>, policy: ReconstructionPolicy, n: nat)
    requires
        n <= s.len(),
        n <= t.len(),
        s.take(n as int) == t.take(n as int),
    ensures
        run_sorted(s, policy, n) == run_sorted(t, policy, n),
    decreases n,
{
    if n > 0 {
        assert(s.take(n - 1) =~= s.take(n as int).take(n - 1));
        assert(t.take(n - 1) =~= t.take(n as int).take(n - 1));
        assert(s[n - 1] == s.take(n as int)[n - 1]);
        assert(t[n - 1] == t.take(n as int)[n - 1]);
        lemma_run_sorted_prefix(s, t, policy, (n - 1) as nat);
    }
}

/// Once a log with a content hash has been applied, the hash stays among those seen.
proof fn lemma_seen_keeps(s: Seq<LogView>, policy: ReconstructionPolicy, n: nat, j: int, h: [u8; 32])
    requires
        n <= s.len(),
        0 <= j < n,
        s[j].content_hash == Some(h),
    ensures
        run_sorted(s, policy, n).seen.contains(h),
    decreases n,
{
    let prev = run_sorted(s, policy, (n - 1) as nat);
    if j < n - 1 {
        lemma_seen_keeps(s, policy, (n - 1) as nat, j, h);
    }
    match s[n - 1].content_hash {
        Some(g) => {
            if !prev.seen.contains(g) {
                assert(prev.seen.push(g)[prev.seen.len() as int] == g);
                if j < n - 1 {
                    let k = choose|k: int| 0 <= k < prev.seen.len() && prev.seen[k] == h;
                    assert(prev.seen.push(g)[k] == h);
                }
            }
        },
        None => {},
    }
}

/// A byte-identical copy of a log that was already taken adds no session and
/// changes no session: its evidence is only counted as duplicate, and every
/// other diagnostic stays as it was. The copy is the later of the two,
/// sorting after every other log.
pub proof fn law_identical_copy_adds_no_session(
    logs: Seq<LogView>,
    copy: LogView,
    original: int,
    policy: ReconstructionPolicy,
)
    requires
        0 <= original < logs.len(),
        logs[original].content_hash is Some,
        copy.content_hash == logs[original].content_hash,
        forall|i: int| 0 <= i < logs.len() ==> #[trigger] log_key_le(logs[i], copy) && !log_key_le(copy, logs[i]),
    ensures
        reconstruct_spec(logs.push(copy), policy).sessions == reconstruct_spec(logs, policy).sessions,
        reconstruct_spec(logs.push(copy), policy).diagnostics == (ReconstructionDiagnostics {
            duplicate_evidence: sat_add64(
                reconstruct_spec(logs, policy).diagnostics.duplicate_evidence,
                copy.evidence.len() as int,
            ),
            ..reconstruct_spec(logs, policy).diagnostics
        }),
{
    let all = logs.push(copy);
    let sorted = sort_logs(logs);
    lemma_sort_logs_facts(logs);
    assert(all.drop_last() =~= logs);
    assert(sort_logs(all) == insert_log(sorted, copy));
    if sorted.len() > 0 {
        assert(sorted.to_multiset().count(sorted.last()) > 0);
        assert(logs.contains(sorted.last()));
        let k = choose|k: int| 0 <= k < logs.len() && logs[k] == sorted.last();
        assert(log_key_le(logs[k], copy));
    } else {
        assert(seq![copy] =~= sorted.push(copy));
    }
    assert(sort_logs(all) == sorted.push(copy));
    let n = logs.len();
    assert(sorted.len() == n) by {
        assert(sorted.len() == sorted.to_multiset().len());
        assert(logs.len() == logs.to_multiset().len());
    }
    assert(all.len() == n + 1);
    lemma_run_logs_sorted(logs, policy, n);
    lemma_run_logs_sorted(all, policy, n + 1);
    assert(sorted.push(copy).take(n as int) =~= sorted.take(n as int));
    lemma_run_sorted_prefix(sorted.push(copy), sorted, policy, n);
    // the original lies among the first n sorted logs
    assert(logs.to_multiset().count(logs[original]) > 0);
    assert(sorted.contains(logs[original]));
    let j = choose|j: int| 0 <= j < sorted.len() && sorted[j] == logs[original];
    let h = copy.content_hash.unwrap();
    lemma_seen_keeps(sorted, policy, n, j, h);
    let st = run_sorted(sorted, policy, n);
    assert(sorted.push(copy)[n as int] == copy);
    assert(run_sorted(sorted.push(copy), policy, n + 1) == log_step_spec(st, copy, policy));
    let st2 = log_step_spec(st, copy, policy);
    assert(st2.active == st.active);
    assert(st2.res.sessions == st.res.sessions);
    match st.active {
        Some(b) => {
            let c = tail_end(b, policy);
            assert(finish_spec(b, c, st2.res).sessions == finish_spec(b, c, st.res).sessions);
        },
        None => {},
    }
}

/// Wherever the copy stands among the logs handed in, first or last, it adds
/// no session and counts only as duplicate evidence, as long as no two
/// different logs share both their source order and their source id.
pub proof fn law_identical_copy_in_any_position(
    logs: Seq<LogView>,
    copy: LogView,
    original: int,
    handed_in: Seq<LogView>,
    policy: ReconstructionPolicy,
)
    requires
        0 <= original < logs.len(),
        logs[original].content_hash is Some,
        copy.content_hash == logs[original].content_hash,
        forall|i: int| 0 <= i < logs.len() ==> #[trigger] log_key_le(logs[i], copy) && !log_key_le(copy, logs[i]),
        keys_identify(logs),
        handed_in.to_multiset() == logs.push(copy).to_multiset(),
    ensures
        reconstruct_spec(handed_in, policy).sessions == reconstruct_spec(logs, policy).sessions,
        reconstruct_spec(handed_in, policy).diagnostics == (ReconstructionDiagnostics {
            duplicate_evidence: sat_add64(
                reconstruct_spec(logs, policy).diagnostics.duplicate_evidence,
                copy.evidence.len() as int,
            ),
            ..reconstruct_spec(logs, policy).diagnostics
        }),
{
    let all = logs.push(copy);
    assert(keys_identify(all)) by {
        assert forall|i: int, j: int|
            0 <= i < all.len() && 0 <= j < all.len() && (#[trigger] all[i]).source_order == (
            #[trigger] all[j]).source_order && all[i].source_id == all[j].source_id implies all[i]
            == all[j] by {
            if i < logs.len() && j < logs.len() {
                assert(all[i] == logs[i] && all[j] == logs[j]);
            } else if i < logs.len() {
                assert(log_key_le(logs[i], copy) && !log_key_le(copy, logs[i]));
                lemma_lex_lt_asymmetric(copy.source_id, logs[i].source_id);
            } else if j < logs.len() {
                assert(0 <= j < logs.len());
                assert(all[j] == logs[j]);
                assert(all[i] == copy);
                assert(log_key_le(logs[j], copy));
                assert(!log_key_le(copy, logs[j]));
                lemma_lex_lt_asymmetric(copy.source_id, logs[j].source_id);
            }
        }
    }
    law_reconstruction_ignores_input_order(all, handed_in, policy);
    law_identical_copy_adds_no_session(logs, copy, original, policy);
}

/// The exit kind that each way of ending a session implies: a clean
/// shutdown or a client stop is a clean exit, a crash is a crash, and an end
/// inferred from a source's end, the next start or the last evidence says
/// nothing of how the game exited.
pub open spec fn exit_of_boundary(boundary: SessionEndBoundary) -> ReconstructedExitKind {
    match boundary {
        SessionEndBoundary::CleanShutdown => ReconstructedExitKind::Clean,
        SessionEndBoundary::ClientStopping => ReconstructedExitKind::Clean,
        SessionEndBoundary::Crash => ReconstructedExitKind::Crash,
        SessionEndBoundary::SourceEndHint => ReconstructedExitKind::Unknown,
        SessionEndBoundary::LastEvidenceBeforeNextStart => ReconstructedExitKind::Unknown,
        SessionEndBoundary::TruncatedAtLastEvidence => ReconstructedExitKind::Unknown,
    }
}

/// A session end whose exit kind is the one its boundary implies.
pub open spec fn crash_consistent(boundary: SessionEndBoundary, exit: ReconstructedExitKind) -> bool {
    exit == exit_of_boundary(boundary)
}

pub open spec fn sessions_crash_consistent(s: Seq<SessionView>) -> bool {
    forall|i: int| 0 <= i < s.len() ==> crash_consistent(#[trigger] s[i].end_boundary, s[i].exit_kind)
}

pub open spec fn candidate_consistent(c: EndCandidate) -> bool {
    crash_consistent(c.boundary, c.exit_kind)
}

pub open spec fn active_crash_consistent(a: Option<BuilderView>) -> bool {
    a matches Some(b) ==> (b.pending_stop matches Some(c) ==> candidate_consistent(c))
}

proof fn lemma_finish_consistent(b: BuilderView, c: EndCandidate, res: ResultView)
    requires
        sessions_crash_consistent(res.sessions),
        candidate_consistent(c),
    ensures
        sessions_crash_consistent(finish_spec(b, c, res).sessions),
{
    let r = finish_spec(b, c, res).sessions;
    assert forall|i: int| 0 <= i < r.len() implies crash_consistent(#[trigger] r[i].end_boundary, r[i].exit_kind) by {
        if i < res.sessions.len() {
            assert(r[i] == res.sessions[i]);
        }
    }
}

proof fn lemma_prepare_consistent(
    a: Option<BuilderView>,
    e: EvidenceView,
    hint: Option<OffsetDateTime>,
    res: ResultView,
)
    requires
        active_crash_consistent(a),
        sessions_crash_consistent(res.sessions),
    ensures
        active_crash_consistent(prepare_spec(a, e, hint, res).0),
        sessions_crash_consistent(prepare_spec(a, e, hint, res).1.sessions),
{
    if let Some(b) = a {
        if let Some(c) = b.pending_stop {
            lemma_finish_consistent(b, c, res);
        }
    }
}

proof fn lemma_startup_consistent(
    a: Option<BuilderView>,
    res: ResultView,
    e: EvidenceView,
    hint: Option<OffsetDateTime>,
    policy: ReconstructionPolicy,
)
    requires
        active_crash_consistent(a),
        sessions_crash_consistent(res.sessions),
    ensures
        active_crash_consistent(startup_spec(a, res, e, hint, policy).0),
        sessions_crash_consistent(startup_spec(a, res, e, hint, policy).1.sessions),
{
    if e.timestamp.sequence_millis is Some && !is_bootstrap_spec(a, e, policy) {
        if let Some(b) = a {
            lemma_finish_consistent(b, interrupted_end(b), res);
        }
    }
}

proof fn lemma_destination_consistent(
    a: Option<BuilderView>,
    res: ResultView,
    e: EvidenceView,
    version: Option<Seq<char>>,
    dest: DestinationView,
    hint: Option<OffsetDateTime>,
)
    requires
        active_crash_consistent(a),
        sessions_crash_consistent(res.sessions),
    ensures
        active_crash_consistent(destination_spec(a, res, e, version, dest, hint).0),
        sessions_crash_consistent(destination_spec(a, res, e, version, dest, hint).1.sessions),
{
    lemma_prepare_consistent(a, e, hint, res);
}

proof fn lemma_terminal_consistent(
    a: Option<BuilderView>,
    e: EvidenceView,
    boundary: SessionEndBoundary,
    exit: ReconstructedExitKind,
    res: ResultView,
)
    requires
        active_crash_consistent(a),
        sessions_crash_consistent(res.sessions),
        crash_consistent(boundary, exit),
    ensures
        active_crash_consistent(terminal_spec(a, e, boundary, exit, res).0),
        sessions_crash_consistent(terminal_spec(a, e, boundary, exit, res).1.sessions),
{
    if let Some(b) = a {
        if e.timestamp.sequence_millis is Some {
            let b1 = link_spec(link_spec(b, e, SessionEvidenceRole::End), e, SessionEvidenceRole::Exit);
            let (b2, d) = observe_spec(b1, e.timestamp, res.diagnostics);
            lemma_finish_consistent(
                b2,
                EndCandidate { timestamp: e.timestamp, boundary, exit_kind: exit },
                with_diagnostics(res, d),
            );
        }
    }
}

proof fn lemma_event_consistent(
    a: Option<BuilderView>,
    res: ResultView,
    e: EvidenceView,
    hint: Option<OffsetDateTime>,
    policy: ReconstructionPolicy,
)
    requires
        active_crash_consistent(a),
        sessions_crash_consistent(res.sessions),
    ensures
        active_crash_consistent(event_spec(a, res, e, hint, policy).0),
        sessions_crash_consistent(event_spec(a, res, e, hint, policy).1.sessions),
{
    match e.event {
        EventView::GameStarted => lemma_startup_consistent(a, res, e, hint, policy),
        EventView::VersionObserved(_) => {},
        EventView::ServerJoined(x) => lemma_destination_consistent(
            a,
            res,
            e,
            None,
            DestinationView::Server(x),
            hint,
        ),
        EventView::IntegratedServerStarted(v) => lemma_destination_consistent(
            a,
            res,
            e,
            v,
            DestinationView::LocalWorld(None),
            hint,
        ),
        EventView::WorldLoaded(w) => lemma_destination_consistent(
            a,
            res,
            e,
            None,
            DestinationView::LocalWorld(w),
            hint,
        ),
        EventView::Disconnected(_) => {},
        EventView::Stopping => {},
        EventView::CleanShutdown => lemma_terminal_consistent(
            a,
            e,
            SessionEndBoundary::CleanShutdown,
            ReconstructedExitKind::Clean,
            res,
        ),
        EventView::Crash(_) => lemma_terminal_consistent(
            a,
            e,
            SessionEndBoundary::Crash,
            ReconstructedExitKind::Crash,
            res,
        ),
    }
}

proof fn lemma_evidence_run_consistent(
    a: Option<BuilderView>,
    res: ResultView,
    evs: Seq<EvidenceView>,
    n: nat,
    dup: nat,
    hint: Option<OffsetDateTime>,
    policy: ReconstructionPolicy,
)
    requires
        active_crash_consistent(a),
        sessions_crash_consistent(res.sessions),
    ensures
        active_crash_consistent(evidence_run(a, res, evs, n, dup, hint, policy).0),
        sessions_crash_consistent(evidence_run(a, res, evs, n, dup, hint, policy).1.sessions),
    decreases n,
{
    if n > 0 {
        lemma_evidence_run_consistent(a, res, evs, (n - 1) as nat, dup, hint, policy);
        let (a1, r1, k) = evidence_run(a, res, evs, (n - 1) as nat, dup, hint, policy);
        lemma_event_consistent(a1, r1, evs[n - 1], hint, policy);
    }
}

proof fn lemma_run_logs_consistent(logs: Seq<LogView>, policy: ReconstructionPolicy, n: nat)
    ensures
        active_crash_consistent(run_logs(logs, policy, n).active),
        sessions_crash_consistent(run_logs(logs, policy, n).res.sessions),
    decreases n,
{
    if n > 0 {
        lemma_run_logs_consistent(logs, policy, (n - 1) as nat);
        let st = run_logs(logs, policy, (n - 1) as nat);
        let order = sorted_indices(logs, logs.len());
        let log = logs[order[n - 1]];
        let copy = match log.content_hash {
            Some(h) => st.seen.contains(h),
            None => false,
        };
        if !copy {
            let cur = crate::parser::session_reconstruction::keys_of(log.evidence);
            let dup = crate::parser::session_reconstruction::duplicate_prefix(st.prev, cur);
            lemma_evidence_run_consistent(
                st.active,
                st.res,
                log.evidence,
                log.evidence.len(),
                dup,
                log.end_hint,
                policy,
            );
        }
    }
}

/// Every reconstructed session that ends by a crash has a crash exit: a
/// crashed game is never shown as a clean or unknown exit.
pub proof fn law_crash_sessions_exit_by_crash(logs: Seq<LogView>, policy: ReconstructionPolicy)
    ensures
        forall|i: int|
            0 <= i < reconstruct_spec(logs, policy).sessions.len() && (#[trigger] reconstruct_spec(
                logs,
                policy,
            ).sessions[i]).end_boundary == SessionEndBoundary::Crash ==> reconstruct_spec(
                logs,
                policy,
            ).sessions[i].exit_kind == ReconstructedExitKind::Crash,
{
    lemma_run_logs_consistent(logs, policy, logs.len());
    let st = run_logs(logs, policy, logs.len());
    if let Some(b) = st.active {
        let c = tail_end(b, policy);
        assert(candidate_consistent(c)) by {
            if choose_tail_spec(b, policy) is None {
            } else if b.pending_stop is Some {
            }
        }
        lemma_finish_consistent(b, c, st.res);
    }
    let r = reconstruct_spec(logs, policy).sessions;
    assert forall|i: int| 0 <= i < r.len() && (#[trigger] r[i]).end_boundary == SessionEndBoundary::Crash
        implies r[i].exit_kind == ReconstructedExitKind::Crash by {
        assert(crash_consistent(r[i].end_boundary, r[i].exit_kind));
    }
}

/// Every reconstructed session's exit kind is the one its end boundary
/// implies: clean for a clean shutdown or a client stop, crash for a crash,
/// unknown for an end inferred from a source's end, the next start or the
/// last evidence.
pub proof fn law_exit_kind_follows_end_boundary(logs: Seq<LogView>, policy: ReconstructionPolicy)
    ensures
        forall|i: int|
            0 <= i < reconstruct_spec(logs, policy).sessions.len() ==> (#[trigger] reconstruct_spec(
                logs,
                policy,
            ).sessions[i]).exit_kind == exit_of_boundary(reconstruct_spec(logs, policy).sessions[i].end_boundary),
{
    law_crash_sessions_exit_by_crash(logs, policy);
    lemma_run_logs_consistent(logs, policy, logs.len());
    let st = run_logs(logs, policy, logs.len());
    if let Some(b) = st.active {
        let c = tail_end(b, policy);
        assert(candidate_consistent(c)) by {
            if choose_tail_spec(b, policy) is None {
            } else if b.pending_stop is Some {
            }
        }
        lemma_finish_consistent(b, c, st.res);
    }
    let r = reconstruct_spec(logs, policy).sessions;
    assert forall|i: int| 0 <= i < r.len() implies (#[trigger] r[i]).exit_kind == exit_of_boundary(
        r[i].end_boundary,
    ) by {
        assert(crash_consistent(r[i].end_boundary, r[i].exit_kind));
    }
}

} // verus!
