//! Grouping the log files of one launcher location by game instance.

use vstd::prelude::*;

use crate::application::scan_models::ScanMode;
use crate::domain::location::{AdapterKind, DiscoveredInstallation};
use crate::parser::session_reconstruction::{lex_lt, string_lt};
use crate::parser::source_classifier::{file_name_chars, file_name_of};
use crate::platform::paths::{join_path, path_join};
use crate::scan::model::{LogCandidate, LogFileKind};
use crate::text::{
    chars_of, eq_chars, eq_ignore_ascii_case_chars, lower_chars, lower_seq, split_chars,
    split_parts, string_from_chars, str_eq,
};

verus! {

/// The log files of one instance, under the instance's root relative to the location.
pub struct InstanceGroup {
    pub relative_root: String,
    pub name: String,
    pub candidates: Vec<LogCandidate>,
}

pub struct GroupView {
    pub root: Seq<char>,
    pub name: Seq<char>,
    pub candidates: Seq<LogCandidate>,
}

pub open spec fn group_view(g: InstanceGroup) -> GroupView {
    GroupView { root: g.relative_root@, name: g.name@, candidates: g.candidates@ }
}

pub open spec fn group_views(v: Seq<InstanceGroup>) -> Seq<GroupView> {
    v.map_values(|g: InstanceGroup| group_view(g))
}

/// Whether the `i`-th `/`-separated piece of a path is one of its components:
/// empty pieces are not, and `.` is one only at the very start.
pub open spec fn kept_piece(piece: Seq<char>, i: int) -> bool {
    piece.len() > 0 && !(piece == seq!['.'] && i > 0)
}

pub open spec fn kept_from(pieces: Seq<Seq<char>>, i: int) -> Seq<Seq<char>>
    decreases pieces.len() - i,
{
    if i >= pieces.len() || i < 0 {
        Seq::empty()
    } else {
        (if kept_piece(pieces[i], i) {
            seq![pieces[i]]
        } else {
            Seq::empty()
        }) + kept_from(pieces, i + 1)
    }
}

/// `Path::components` of a path, each as its text: `/` for the root, then
/// the names, with `.` only at the start.
pub open spec fn components_of(p: Seq<char>) -> Seq<Seq<char>> {
    (if p.len() > 0 && p[0] == '/' {
        seq![seq!['/']]
    } else {
        Seq::empty()
    }) + kept_from(split_parts(p, '/'), 0)
}

/// The path built by pushing each component in turn onto an empty path.
pub open spec fn joined(parts: Seq<Seq<char>>) -> Seq<char>
    decreases parts.len(),
{
    if parts.len() == 0 {
        Seq::empty()
    } else {
        path_join(joined(parts.drop_last()), parts.last())
    }
}

/// The first component equal to `name`, ignoring ASCII case.
pub open spec fn first_named(parts: Seq<Seq<char>>, name: Seq<char>) -> Option<int>
    decreases parts.len(),
{
    if parts.len() == 0 {
        None
    } else {
        match first_named(parts.drop_last(), name) {
            Some(i) => Some(i),
            None => if lower_seq(parts.last()) == lower_seq(name) {
                Some(parts.len() - 1)
            } else {
                None
            },
        }
    }
}

/// The instance root and name a log belongs to, or `None` when it is left
/// out: a quick scan reads only plain `latest.log` files; a log must lie
/// under a `logs` component; a log outside an `instances` folder belongs to
/// the location itself, except for Prism and multi-instance locations.
pub open spec fn group_key(
    adapter: AdapterKind,
    instances: usize,
    location_name: Seq<char>,
    c: LogCandidate,
    mode: ScanMode,
) -> Option<(Seq<char>, Seq<char>)> {
    let is_latest = match file_name_of(c.relative_path@) {
        Some(n) => lower_seq(n) == "latest.log"@,
        None => false,
    };
    if mode == ScanMode::Quick && (c.kind != LogFileKind::Log || !is_latest) {
        None
    } else {
        let comps = components_of(c.relative_path@);
        match first_named(comps, "logs"@) {
            None => None,
            Some(li) => match first_named(comps.take(li), "instances"@) {
                None => if adapter == AdapterKind::Prism || instances > 1 {
                    None
                } else {
                    Some((Seq::empty(), location_name))
                },
                Some(ii) => Some((joined(comps.take(li)), comps[ii + 1])),
            },
        }
    }
}

/// Adds a log to the group with its root, or to a new group kept in root order.
pub open spec fn add_to_groups(
    gs: Seq<GroupView>,
    root: Seq<char>,
    name: Seq<char>,
    c: LogCandidate,
) -> Seq<GroupView>
    decreases gs.len(),
{
    if gs.len() == 0 {
        seq![GroupView { root, name, candidates: seq![c] }]
    } else if gs[0].root == root {
        seq![GroupView { candidates: gs[0].candidates.push(c), ..gs[0] }] + gs.drop_first()
    } else if lex_lt(root, gs[0].root) {
        seq![GroupView { root, name, candidates: seq![c] }] + gs
    } else {
        seq![gs[0]] + add_to_groups(gs.drop_first(), root, name, c)
    }
}

pub open spec fn grouped(
    adapter: AdapterKind,
    instances: usize,
    location_name: Seq<char>,
    cs: Seq<LogCandidate>,
    mode: ScanMode,
) -> Seq<GroupView>
    decreases cs.len(),
{
    if cs.len() == 0 {
        Seq::empty()
    } else {
        let gs = grouped(adapter, instances, location_name, cs.drop_last(), mode);
        match group_key(adapter, instances, location_name, cs.last(), mode) {
            Some((root, name)) => add_to_groups(gs, root, name, cs.last()),
            None => gs,
        }
    }
}

/// The groups of a location's logs, in root order; a standard or deep scan
/// of a non-Prism location with no log keeps one empty group for the location.
pub open spec fn group_candidates_spec(
    adapter: AdapterKind,
    instances: usize,
    location_name: Seq<char>,
    cs: Seq<LogCandidate>,
    mode: ScanMode,
) -> Seq<GroupView> {
    let gs = grouped(adapter, instances, location_name, cs, mode);
    if gs.len() == 0 && mode != ScanMode::Quick && adapter != AdapterKind::Prism {
        seq![GroupView { root: Seq::empty(), name: location_name, candidates: Seq::empty() }]
    } else {
        gs
    }
}

fn kept_components(p: &[char]) -> (r: Vec<Vec<char>>)
    ensures
        r@.map_values(|v: Vec<char>| v@) == components_of(p@),
{
    let pieces = split_chars(p, '/');
    let ghost pv = pieces@.map_values(|v: Vec<char>| v@);
    let mut r: Vec<Vec<char>> = Vec::new();
    if p.len() > 0 && p[0] == '/' {
        let mut root: Vec<char> = Vec::new();
        root.push('/');
        r.push(root);
    }
    let ghost head = r@.map_values(|v: Vec<char>| v@);
    let dot = vec!['.'];
    assert(dot@ =~= seq!['.']);
    let mut i: usize = 0;
    assert(kept_from(pv, 0) == Seq::<Seq<char>>::empty() + kept_from(pv, 0));
    while i < pieces.len()
        invariant
            i <= pieces@.len(),
            pv == pieces@.map_values(|v: Vec<char>| v@),
            pv.len() == pieces@.len(),
            dot@ == seq!['.'],
            head + kept_from(pv, 0) == r@.map_values(|v: Vec<char>| v@) + kept_from(pv, i as int),
        decreases pieces@.len() - i,
    {
        let piece = &pieces[i];
        assert(pv[i as int] == piece@);
        let keep = piece.len() > 0 && !(i > 0 && eq_chars(piece.as_slice(), dot.as_slice()));
        let ghost before = r@.map_values(|v: Vec<char>| v@);
        if keep {
            r.push(slice_all(piece.as_slice()));
            assert(r@.map_values(|v: Vec<char>| v@) =~= before.push(pv[i as int]));
            assert(before + kept_from(pv, i as int) =~= before.push(pv[i as int]) + kept_from(pv, i + 1));
        } else {
            assert(before + kept_from(pv, i as int) =~= before + kept_from(pv, i + 1));
        }
        i = i + 1;
    }
    assert(kept_from(pv, i as int) =~= Seq::<Seq<char>>::empty());
    assert(r@.map_values(|v: Vec<char>| v@) =~= head + kept_from(pv, 0));
    r
}

fn slice_all(s: &[char]) -> (r: Vec<char>)
    ensures
        r@ == s@,
{
    let r = crate::text::slice_chars(s, 0, s.len());
    assert(s@.subrange(0, s@.len() as int) =~= s@);
    r
}

fn first_named_exec(parts: &Vec<Vec<char>>, upto: usize, name: &str) -> (r: Option<usize>)
    requires
        upto <= parts@.len(),
    ensures
        match r {
            Some(i) => first_named(parts@.map_values(|v: Vec<char>| v@).take(upto as int), name@) == Some(
                i as int,
            ),
            None => first_named(parts@.map_values(|v: Vec<char>| v@).take(upto as int), name@) is None,
        },
{
    let n = chars_of(name);
    let ghost pv = parts@.map_values(|v: Vec<char>| v@);
    let mut i: usize = 0;
    while i < upto
        invariant
            i <= upto <= parts@.len(),
            pv == parts@.map_values(|v: Vec<char>| v@),
            n@ == name@,
            first_named(pv.take(i as int), name@) is None,
        decreases upto - i,
    {
        assert(pv.take(i + 1).drop_last() =~= pv.take(i as int));
        assert(pv.take(i + 1).last() == parts@[i as int]@);
        if eq_ignore_ascii_case_chars(parts[i].as_slice(), n.as_slice()) {
            proof {
                lemma_first_named_extends(pv.take(upto as int), name@, i + 1);
                assert(pv.take(upto as int).take(i + 1) =~= pv.take(i + 1));
            }
            return Some(i);
        }
        i = i + 1;
    }
    None
}

proof fn lemma_first_named_extends(parts: Seq<Seq<char>>, name: Seq<char>, k: int)
    requires
        0 < k <= parts.len(),
        first_named(parts.take(k), name) is Some,
    ensures
        first_named(parts, name) == first_named(parts.take(k), name),
    decreases parts.len() - k,
{
    if k < parts.len() {
        assert(parts.take(k + 1).drop_last() =~= parts.take(k));
        lemma_first_named_extends(parts, name, k + 1);
    } else {
        assert(parts.take(k) =~= parts);
    }
}

proof fn lemma_first_named_bound(parts: Seq<Seq<char>>, name: Seq<char>)
    ensures
        first_named(parts, name) matches Some(i) ==> 0 <= i < parts.len(),
    decreases parts.len(),
{
    if parts.len() > 0 {
        lemma_first_named_bound(parts.drop_last(), name);
    }
}

fn joined_exec(parts: &Vec<Vec<char>>, upto: usize) -> (r: String)
    requires
        upto <= parts@.len(),
    ensures
        r@ == joined(parts@.map_values(|v: Vec<char>| v@).take(upto as int)),
{
    let ghost pv = parts@.map_values(|v: Vec<char>| v@);
    let mut acc = String::new();
    let mut i: usize = 0;
    assert(pv.take(0) =~= Seq::<Seq<char>>::empty());
    while i < upto
        invariant
            i <= upto <= parts@.len(),
            pv == parts@.map_values(|v: Vec<char>| v@),
            acc@ == joined(pv.take(i as int)),
        decreases upto - i,
    {
        let part = string_from_chars(parts[i].as_slice());
        acc = join_path(acc.as_str(), part.as_str());
        assert(pv.take(i + 1).drop_last() =~= pv.take(i as int));
        assert(pv.take(i + 1).last() == parts@[i as int]@);
        i = i + 1;
    }
    acc
}

fn key_of(location: &DiscoveredInstallation, c: &LogCandidate, mode: ScanMode) -> (r: Option<(String, String)>)
    ensures
        match r {
            Some((root, name)) => group_key(
                location.adapter_kind,
                location.instances,
                location.name@,
                *c,
                mode,
            ) == Some((root@, name@)),
            None => group_key(location.adapter_kind, location.instances, location.name@, *c, mode)
                is None,
        },
{
    let path = chars_of(c.relative_path.as_str());
    if mode == ScanMode::Quick {
        let is_latest = match file_name_chars(path.as_slice()) {
            Some(n) => {
                let lowered = lower_chars(n.as_slice());
                let latest = chars_of("latest.log");
                eq_chars(lowered.as_slice(), latest.as_slice())
            },
            None => false,
        };
        if c.kind != LogFileKind::Log || !is_latest {
            return None;
        }
    }
    let comps = kept_components(path.as_slice());
    let ghost cv = comps@.map_values(|v: Vec<char>| v@);
    assert(cv.take(cv.len() as int) =~= cv);
    let li = match first_named_exec(&comps, comps.len(), "logs") {
        Some(i) => i,
        None => return None,
    };
    proof {
        lemma_first_named_bound(cv, "logs"@);
        assert(cv.take(li as int).len() == li);
    }
    match first_named_exec(&comps, li, "instances") {
        None => {
            if location.adapter_kind == AdapterKind::Prism || location.instances > 1 {
                None
            } else {
                Some((String::new(), location.name.clone()))
            }
        },
        Some(ii) => {
            proof {
                lemma_first_named_bound(cv.take(li as int), "instances"@);
                assert(cv[ii + 1] == comps@[ii + 1]@);
            }
            let root = joined_exec(&comps, li);
            let name = string_from_chars(comps[ii + 1].as_slice());
            Some((root, name))
        },
    }
}

fn add_group(groups: &mut Vec<InstanceGroup>, root: String, name: String, c: LogCandidate)
    ensures
        group_views(final(groups)@) == add_to_groups(group_views(old(groups)@), root@, name@, c),
{
    let ghost orig = group_views(groups@);
    let mut i: usize = 0;
    assert(orig.skip(0) =~= orig);
    assert(orig.take(0) + add_to_groups(orig, root@, name@, c) =~= add_to_groups(orig, root@, name@, c));
    while i < groups.len()
        invariant
            i <= groups@.len(),
            groups@ == old(groups)@,
            orig == group_views(groups@),
            add_to_groups(orig, root@, name@, c) == orig.take(i as int) + add_to_groups(
                orig.skip(i as int),
                root@,
                name@,
                c,
            ),
        decreases groups@.len() - i,
    {
        assert(orig.skip(i as int)[0] == orig[i as int]);
        assert(orig.skip(i as int).drop_first() =~= orig.skip(i + 1));
        if str_eq(groups[i].relative_root.as_str(), root.as_str()) {
            let mut g = groups.remove(i);
            g.candidates.push(c);
            groups.insert(i, g);
            assert(group_views(groups@) =~= orig.take(i as int) + (seq![
                GroupView { candidates: orig[i as int].candidates.push(c), ..orig[i as int] },
            ] + orig.skip(i + 1)));
            return;
        }
        if string_lt(&root, &groups[i].relative_root) {
            let mut candidates: Vec<LogCandidate> = Vec::new();
            candidates.push(c);
            groups.insert(i, InstanceGroup { relative_root: root, name, candidates });
            assert(group_views(groups@) =~= orig.take(i as int) + (seq![
                GroupView { root: root@, name: name@, candidates: seq![c] },
            ] + orig.skip(i as int)));
            return;
        }
        assert(orig.take(i as int) + seq![orig[i as int]] =~= orig.take(i + 1));
        i = i + 1;
    }
    let mut candidates: Vec<LogCandidate> = Vec::new();
    candidates.push(c);
    groups.push(InstanceGroup { relative_root: root, name, candidates });
    assert(orig.skip(i as int) =~= Seq::<GroupView>::empty());
    assert(orig.take(i as int) =~= orig);
    assert(group_views(groups@) =~= orig.push(GroupView { root: root@, name: name@, candidates: seq![c] }));
}

/// Groups the logs found at a location by the game instance they belong to.
pub fn group_candidates(
    location: &DiscoveredInstallation,
    candidates: Vec<LogCandidate>,
    mode: ScanMode,
) -> (r: Vec<InstanceGroup>)
    ensures
        group_views(r@) == group_candidates_spec(
            location.adapter_kind,
            location.instances,
            location.name@,
            candidates@,
            mode,
        ),
{
    let ghost all = candidates@;
    let mut rest = candidates;
    let mut groups: Vec<InstanceGroup> = Vec::new();
    let mut k: usize = 0;
    assert(all.take(0) =~= Seq::<LogCandidate>::empty());
    assert(group_views(groups@) =~= Seq::<GroupView>::empty());
    assert(all.len() == rest.len());
    while rest.len() > 0
        invariant
            all.len() <= usize::MAX,
            k + rest@.len() == all.len(),
            rest@ == all.skip(k as int),
            group_views(groups@) == grouped(
                location.adapter_kind,
                location.instances,
                location.name@,
                all.take(k as int),
                mode,
            ),
        decreases rest@.len(),
    {
        let c = rest.remove(0);
        assert(rest@ =~= all.skip(k + 1));
        assert(all.take(k + 1).drop_last() =~= all.take(k as int));
        assert(all.take(k + 1).last() == c);
        match key_of(location, &c, mode) {
            Some((root, name)) => {
                add_group(&mut groups, root, name, c);
            },
            None => {},
        }
        k = k + 1;
    }
    assert(all.take(k as int) =~= all);
    if groups.len() == 0 && mode != ScanMode::Quick && location.adapter_kind != AdapterKind::Prism {
        groups.push(
            InstanceGroup {
                relative_root: String::new(),
                name: location.name.clone(),
                candidates: Vec::new(),
            },
        );
        assert(group_views(groups@) =~= seq![
            GroupView { root: Seq::empty(), name: location.name@, candidates: Seq::empty() },
        ]);
    }
    groups
}

} // verus!
