//! The decisions of a log inventory walk: which directories lead towards
//! logs, which file names are logs, and what each directory entry becomes.
//! Reading directories and metadata is left to the caller.

use vstd::prelude::*;

use crate::application::scan_service::{bytes_less, bytes_lt};
use crate::scan::model::{LogCandidate, LogFileKind};
use crate::text::{chars_of, eq_ignore_ascii_case_chars, lower_seq};

verus! {

/// Where a directory lies on the way to logs.
#[derive(Clone, Copy, PartialEq, Eq, Debug, Structural)]
pub enum TraversalScope {
    Root,
    InstanceCollection,
    Instance,
    GameDirectory,
    Logs,
}

/// Bounds of one inventory walk.
#[derive(Clone, Copy, PartialEq, Eq, Debug, Structural)]
pub struct InventoryOptions {
    pub max_depth: usize,
    pub max_entries: usize,
    pub max_file_size_bytes: u64,
}

impl Default for InventoryOptions {
    fn default() -> (r: InventoryOptions)
        ensures
            r == (InventoryOptions {
                max_depth: 24,
                max_entries: 250_000,
                max_file_size_bytes: 2_147_483_648u64,
            }),
    {
        InventoryOptions { max_depth: 24, max_entries: 250_000, max_file_size_bytes: 2_147_483_648 }
    }
}

/// Whether a name equals `expected`, ignoring ASCII case.
pub open spec fn name_is(name: Seq<char>, expected: Seq<char>) -> bool {
    lower_seq(name) == lower_seq(expected)
}

pub fn name_eq(name: &str, expected: &str) -> (r: bool)
    ensures
        r == name_is(name@, expected@),
{
    let a = chars_of(name);
    let b = chars_of(expected);
    eq_ignore_ascii_case_chars(a.as_slice(), b.as_slice())
}

/// The scope of a subdirectory named `name`, or none where the walk does not enter it.
pub open spec fn child_scope_spec(scope: TraversalScope, name: Seq<char>) -> Option<TraversalScope> {
    match scope {
        TraversalScope::Root => if name_is(name, "logs"@) {
            Some(TraversalScope::Logs)
        } else if name_is(name, ".minecraft"@) || name_is(name, "minecraft"@) {
            Some(TraversalScope::GameDirectory)
        } else if name_is(name, "instances"@) {
            Some(TraversalScope::InstanceCollection)
        } else {
            None
        },
        TraversalScope::InstanceCollection => Some(TraversalScope::Instance),
        TraversalScope::Instance => if name_is(name, "logs"@) {
            Some(TraversalScope::Logs)
        } else if name_is(name, ".minecraft"@) || name_is(name, "minecraft"@) {
            Some(TraversalScope::GameDirectory)
        } else {
            None
        },
        TraversalScope::GameDirectory => if name_is(name, "logs"@) {
            Some(TraversalScope::Logs)
        } else {
            None
        },
        TraversalScope::Logs => Some(TraversalScope::Logs),
    }
}

pub fn child_scope(scope: TraversalScope, name: &str) -> (r: Option<TraversalScope>)
    ensures
        r == child_scope_spec(scope, name@),
{
    match scope {
        TraversalScope::Root => {
            if name_eq(name, "logs") {
                Some(TraversalScope::Logs)
            } else if name_eq(name, ".minecraft") || name_eq(name, "minecraft") {
                Some(TraversalScope::GameDirectory)
            } else if name_eq(name, "instances") {
                Some(TraversalScope::InstanceCollection)
            } else {
                None
            }
        },
        TraversalScope::InstanceCollection => Some(TraversalScope::Instance),
        TraversalScope::Instance => {
            if name_eq(name, "logs") {
                Some(TraversalScope::Logs)
            } else if name_eq(name, ".minecraft") || name_eq(name, "minecraft") {
                Some(TraversalScope::GameDirectory)
            } else {
                None
            }
        },
        TraversalScope::GameDirectory => {
            if name_eq(name, "logs") {
                Some(TraversalScope::Logs)
            } else {
                None
            }
        },
        TraversalScope::Logs => Some(TraversalScope::Logs),
    }
}

/// The scope the walk starts in: a root named `logs` is already a log directory.
pub open spec fn root_scope_spec(root_name: Option<Seq<char>>) -> TraversalScope {
    match root_name {
        Some(n) => if name_is(n, "logs"@) {
            TraversalScope::Logs
        } else {
            TraversalScope::Root
        },
        None => TraversalScope::Root,
    }
}

pub fn root_scope(root_name: Option<&str>) -> (r: TraversalScope)
    ensures
        r == root_scope_spec(
            match root_name {
                Some(n) => Some(n@),
                None => None,
            },
        ),
{
    match root_name {
        Some(n) => if name_eq(n, "logs") {
            TraversalScope::Logs
        } else {
            TraversalScope::Root
        },
        None => TraversalScope::Root,
    }
}

/// ASCII lowercase of one byte.
pub open spec fn lower_byte(b: u8) -> u8 {
    if 65 <= b <= 90 {
        (b + 32) as u8
    } else {
        b
    }
}

/// Whether `bytes` ends with `suffix`, ignoring ASCII case (`suffix` is lowercase).
pub open spec fn ends_with_ci(bytes: Seq<u8>, suffix: Seq<u8>) -> bool {
    bytes.len() >= suffix.len() && forall|i: int|
        0 <= i < suffix.len() ==> lower_byte(#[trigger] bytes[bytes.len() - suffix.len() + i]) == suffix[i]
}

fn ends_with_ci_exec(bytes: &[u8], suffix: &[u8]) -> (r: bool)
    ensures
        r == ends_with_ci(bytes@, suffix@),
{
    if bytes.len() < suffix.len() {
        return false;
    }
    let start = bytes.len() - suffix.len();
    let mut i: usize = 0;
    while i < suffix.len()
        invariant
            i <= suffix@.len(),
            start == bytes@.len() - suffix@.len(),
            bytes@.len() == bytes.len(),
            forall|k: int| 0 <= k < i ==> lower_byte(#[trigger] bytes@[start + k]) == suffix@[k],
        decreases suffix@.len() - i,
    {
        let b = bytes[start + i];
        let lower = if 65 <= b && b <= 90 {
            b + 32
        } else {
            b
        };
        if lower != suffix[i] {
            return false;
        }
        i = i + 1;
    }
    true
}

/// The kind of log a file name marks: `.log.gz` or `.log`, in any ASCII case.
pub open spec fn log_name_kind(name_bytes: Seq<u8>) -> Option<LogFileKind> {
    if ends_with_ci(name_bytes, vstd::utf8::encode_utf8(".log.gz"@)) {
        Some(LogFileKind::CompressedLog)
    } else if ends_with_ci(name_bytes, vstd::utf8::encode_utf8(".log"@)) {
        Some(LogFileKind::Log)
    } else {
        None
    }
}

/// `classify_log_name`: the kind of log a file name marks, by the bytes of its (lossy) text.
pub fn classify_log_name(name: &str) -> (r: Option<LogFileKind>)
    ensures
        r == log_name_kind(vstd::utf8::encode_utf8(name@)),
{
    let bytes = name.as_bytes();
    if ends_with_ci_exec(bytes, ".log.gz".as_bytes()) {
        Some(LogFileKind::CompressedLog)
    } else if ends_with_ci_exec(bytes, ".log".as_bytes()) {
        Some(LogFileKind::Log)
    } else {
        None
    }
}

/// What a directory entry is, as its (unfollowed) metadata shows it.
#[derive(Clone, Copy, PartialEq, Eq, Debug, Structural)]
pub enum EntryType {
    Symlink,
    Directory,
    File,
    Other,
}

/// What the walk does with one entry.
#[derive(Clone, Copy, PartialEq, Eq, Debug, Structural)]
pub enum EntryStep {
    /// Counted and warned about; links are never followed.
    SkipSymlink,
    /// Entered with the given scope.
    Descend(TraversalScope),
    /// Warned about: entering it would pass the depth limit.
    DepthLimitReached,
    /// Passed over.
    Ignore,
    /// A log of this kind, once its size is checked.
    Candidate(LogFileKind),
}

pub open spec fn entry_step_spec(
    scope: TraversalScope,
    depth: usize,
    options: InventoryOptions,
    entry_type: EntryType,
    name: Seq<char>,
) -> EntryStep {
    match entry_type {
        EntryType::Symlink => EntryStep::SkipSymlink,
        EntryType::Directory => match child_scope_spec(scope, name) {
            None => EntryStep::Ignore,
            Some(next) => if depth >= options.max_depth {
                EntryStep::DepthLimitReached
            } else {
                EntryStep::Descend(next)
            },
        },
        EntryType::File => if scope != TraversalScope::Logs {
            EntryStep::Ignore
        } else {
            match log_name_kind(vstd::utf8::encode_utf8(name)) {
                Some(kind) => EntryStep::Candidate(kind),
                None => EntryStep::Ignore,
            }
        },
        EntryType::Other => EntryStep::Ignore,
    }
}

/// The walk's decision for one entry of a directory at `depth` in `scope`.
pub fn entry_step(
    scope: TraversalScope,
    depth: usize,
    options: &InventoryOptions,
    entry_type: EntryType,
    name: &str,
) -> (r: EntryStep)
    ensures
        r == entry_step_spec(scope, depth, *options, entry_type, name@),
{
    match entry_type {
        EntryType::Symlink => EntryStep::SkipSymlink,
        EntryType::Directory => match child_scope(scope, name) {
            None => EntryStep::Ignore,
            Some(next) => if depth >= options.max_depth {
                EntryStep::DepthLimitReached
            } else {
                EntryStep::Descend(next)
            },
        },
        EntryType::File => {
            if scope != TraversalScope::Logs {
                EntryStep::Ignore
            } else {
                match classify_log_name(name) {
                    Some(kind) => EntryStep::Candidate(kind),
                    None => EntryStep::Ignore,
                }
            }
        },
        EntryType::Other => EntryStep::Ignore,
    }
}

/// The count of visited entries once one more is visited, or `None` when
/// that entry would pass the entry limit.
pub fn visit_entry(options: &InventoryOptions, visited: usize) -> (r: Option<usize>)
    ensures
        r == (if visited < options.max_entries {
            Some((visited + 1) as usize)
        } else {
            None::<usize>
        }),
{
    if visited < options.max_entries {
        Some(visited + 1)
    } else {
        None
    }
}

/// Whether a log file of `len` bytes is small enough to be kept.
pub fn file_size_allowed(options: &InventoryOptions, len: u64) -> (r: bool)
    ensures
        r == (len <= options.max_file_size_bytes),
{
    len <= options.max_file_size_bytes
}

/// How many more entries the walk may read before it passes its limit.
pub fn remaining_entries(options: &InventoryOptions, visited: usize) -> (r: usize)
    ensures
        r == (if options.max_entries >= visited {
            options.max_entries - visited
        } else {
            0
        }),
{
    if options.max_entries >= visited {
        options.max_entries - visited
    } else {
        0
    }
}

/// Stable insertion of a candidate after every candidate whose key is no greater.
pub open spec fn insert_by_key(s: Seq<LogCandidate>, x: LogCandidate) -> Seq<LogCandidate>
    decreases s.len(),
{
    if s.len() == 0 {
        seq![x]
    } else if !bytes_lt(x.relative_path_key@, s.last().relative_path_key@) {
        s.push(x)
    } else {
        insert_by_key(s.drop_last(), x).push(s.last())
    }
}

/// The candidates ordered by their native path keys (a stable sort).
pub open spec fn sorted_by_key(s: Seq<LogCandidate>) -> Seq<LogCandidate>
    decreases s.len(),
{
    if s.len() == 0 {
        Seq::empty()
    } else {
        insert_by_key(sorted_by_key(s.drop_last()), s.last())
    }
}

/// Orders inventory candidates by their native path keys.
pub fn sort_candidates(candidates: &mut Vec<LogCandidate>)
    ensures
        final(candidates)@ == sorted_by_key(old(candidates)@),
{
    let mut input: Vec<LogCandidate> = Vec::new();
    std::mem::swap(candidates, &mut input);
    let ghost all = input@;
    let mut sorted: Vec<LogCandidate> = Vec::new();
    let mut k: usize = 0;
    assert(all.take(0) =~= Seq::<LogCandidate>::empty());
    assert(all.len() == input.len());
    while input.len() > 0
        invariant
            k <= all.len(),
            k + input@.len() == all.len(),
            all.len() <= usize::MAX,
            input@ == all.skip(k as int),
            sorted@ == sorted_by_key(all.take(k as int)),
        decreases input@.len(),
    {
        let x = input.remove(0);
        assert(x == all[k as int]);
        assert(input@ =~= all.skip(k + 1));
        let ghost s = sorted@;
        let mut j: usize = sorted.len();
        assert(s.take(j as int) =~= s);
        assert(insert_by_key(s, x) =~= insert_by_key(s.take(j as int), x) + s.skip(j as int));
        while j > 0 && bytes_less(x.relative_path_key.as_slice(), sorted[j - 1].relative_path_key.as_slice())
            invariant
                j <= s.len(),
                sorted@ == s,
                insert_by_key(s, x) == insert_by_key(s.take(j as int), x) + s.skip(j as int),
            decreases j,
        {
            proof {
                let t = s.take(j as int);
                assert(t.last() == s[j - 1]);
                assert(t.drop_last() =~= s.take(j - 1));
                assert(seq![s[j - 1]] + s.skip(j as int) =~= s.skip(j - 1));
                assert(insert_by_key(t, x) == insert_by_key(s.take(j - 1), x).push(s[j - 1]));
                assert(insert_by_key(s.take(j - 1), x).push(s[j - 1]) + s.skip(j as int) =~= insert_by_key(
                    s.take(j - 1),
                    x,
                ) + s.skip(j - 1));
            }
            j = j - 1;
        }
        proof {
            let t = s.take(j as int);
            if j == 0 {
                assert(t =~= Seq::<LogCandidate>::empty());
            } else {
                assert(t.last() == s[j - 1]);
            }
            assert(insert_by_key(t, x) =~= t.push(x));
        }
        sorted.insert(j, x);
        proof {
            assert(all.take(k + 1).drop_last() =~= all.take(k as int));
            assert(all.take(k + 1).last() == x);
            assert(sorted@ =~= s.take(j as int).push(x) + s.skip(j as int));
        }
        k = k + 1;
    }
    assert(all.take(k as int) =~= all);
    *candidates = sorted;
}


/// Stable insertion of a directory entry after every entry whose name is no greater.
pub open spec fn insert_by_name(s: Seq<(Vec<u8>, usize)>, x: (Vec<u8>, usize)) -> Seq<(Vec<u8>, usize)>
    decreases s.len(),
{
    if s.len() == 0 {
        seq![x]
    } else if !bytes_lt(x.0@, s.last().0@) {
        s.push(x)
    } else {
        insert_by_name(s.drop_last(), x).push(s.last())
    }
}

/// Directory entries ordered by their names' bytes (a stable sort).
pub open spec fn sorted_by_name(s: Seq<(Vec<u8>, usize)>) -> Seq<(Vec<u8>, usize)>
    decreases s.len(),
{
    if s.len() == 0 {
        Seq::empty()
    } else {
        insert_by_name(sorted_by_name(s.drop_last()), s.last())
    }
}

/// Orders the entries of one directory by their names' bytes, the order
/// in which the walk visits them; each entry carries its place in the listing.
pub fn sort_entries_by_name(candidates: &mut Vec<(Vec<u8>, usize)>)
    ensures
        final(candidates)@ == sorted_by_name(old(candidates)@),
{
    let mut input: Vec<(Vec<u8>, usize)> = Vec::new();
    std::mem::swap(candidates, &mut input);
    let ghost all = input@;
    let mut sorted: Vec<(Vec<u8>, usize)> = Vec::new();
    let mut k: usize = 0;
    assert(all.take(0) =~= Seq::<(Vec<u8>, usize)>::empty());
    assert(all.len() == input.len());
    while input.len() > 0
        invariant
            k <= all.len(),
            k + input@.len() == all.len(),
            all.len() <= usize::MAX,
            input@ == all.skip(k as int),
            sorted@ == sorted_by_name(all.take(k as int)),
        decreases input@.len(),
    {
        let x = input.remove(0);
        assert(x == all[k as int]);
        assert(input@ =~= all.skip(k + 1));
        let ghost s = sorted@;
        let mut j: usize = sorted.len();
        assert(s.take(j as int) =~= s);
        assert(insert_by_name(s, x) =~= insert_by_name(s.take(j as int), x) + s.skip(j as int));
        while j > 0 && bytes_less(x.0.as_slice(), sorted[j - 1].0.as_slice())
            invariant
                j <= s.len(),
                sorted@ == s,
                insert_by_name(s, x) == insert_by_name(s.take(j as int), x) + s.skip(j as int),
            decreases j,
        {
            proof {
                let t = s.take(j as int);
                assert(t.last() == s[j - 1]);
                assert(t.drop_last() =~= s.take(j - 1));
                assert(seq![s[j - 1]] + s.skip(j as int) =~= s.skip(j - 1));
                assert(insert_by_name(t, x) == insert_by_name(s.take(j - 1), x).push(s[j - 1]));
                assert(insert_by_name(s.take(j - 1), x).push(s[j - 1]) + s.skip(j as int) =~= insert_by_name(
                    s.take(j - 1),
                    x,
                ) + s.skip(j - 1));
            }
            j = j - 1;
        }
        proof {
            let t = s.take(j as int);
            if j == 0 {
                assert(t =~= Seq::<(Vec<u8>, usize)>::empty());
            } else {
                assert(t.last() == s[j - 1]);
            }
            assert(insert_by_name(t, x) =~= t.push(x));
        }
        sorted.insert(j, x);
        proof {
            assert(all.take(k + 1).drop_last() =~= all.take(k as int));
            assert(all.take(k + 1).last() == x);
            assert(sorted@ =~= s.take(j as int).push(x) + s.skip(j as int));
        }
        k = k + 1;
    }
    assert(all.take(k as int) =~= all);
    *candidates = sorted;
}

/// Inside an instance, as at the root, a directory called `.minecraft` or
/// `minecraft`, in any ASCII case, is a game directory, and the walk enters
/// it whenever the depth limit allows.
pub proof fn law_minecraft_directories_are_game_directories(
    scope: TraversalScope,
    depth: usize,
    options: InventoryOptions,
    name: Seq<char>,
)
    requires
        scope == TraversalScope::Root || scope == TraversalScope::Instance,
        lower_seq(name) == ".minecraft"@ || lower_seq(name) == "minecraft"@,
    ensures
        child_scope_spec(scope, name) == Some(TraversalScope::GameDirectory),
        depth < options.max_depth ==> entry_step_spec(scope, depth, options, EntryType::Directory, name)
            == EntryStep::Descend(TraversalScope::GameDirectory),
{
    reveal_strlit(".minecraft");
    reveal_strlit("minecraft");
    reveal_strlit("logs");
    assert(lower_seq(".minecraft"@) =~= ".minecraft"@);
    assert(lower_seq("minecraft"@) =~= "minecraft"@);
    assert(lower_seq("logs"@).len() == 4);
    assert(lower_seq(name).len() != 4);
}

/// A directory called `logs`, in any ASCII case, is a log directory in
/// every scope but an instance collection; every directory of an instance
/// collection is an instance; a directory called `instances` at the root is
/// an instance collection.
pub proof fn law_log_and_instance_directories(scope: TraversalScope, name: Seq<char>)
    ensures
        lower_seq(name) == "logs"@ && scope != TraversalScope::InstanceCollection ==> child_scope_spec(scope, name)
            == Some(TraversalScope::Logs),
        child_scope_spec(TraversalScope::InstanceCollection, name) == Some(TraversalScope::Instance),
        lower_seq(name) == "instances"@ ==> child_scope_spec(TraversalScope::Root, name) == Some(
            TraversalScope::InstanceCollection,
        ),
{
    reveal_strlit("logs");
    reveal_strlit("instances");
    reveal_strlit(".minecraft");
    reveal_strlit("minecraft");
    assert(lower_seq("logs"@) =~= "logs"@);
    assert(lower_seq("instances"@) =~= "instances"@);
    assert(lower_seq(".minecraft"@) =~= ".minecraft"@);
    assert(lower_seq("minecraft"@) =~= "minecraft"@);
    if lower_seq(name) == "instances"@ {
        assert(lower_seq(name).len() == 9);
        assert(lower_seq(name)[0] != "minecraft"@[0]);
    }
}

/// A file whose name ends in `.log` is a plain log and one that ends in
/// `.log.gz` a compressed log, whatever comes before and in any ASCII case
/// of the suffix.
pub proof fn law_log_file_names(base: Seq<u8>)
    ensures
        log_name_kind(base + seq![46u8, 108u8, 111u8, 103u8]) == Some(LogFileKind::Log),
        log_name_kind(base + seq![46u8, 76u8, 79u8, 71u8]) == Some(LogFileKind::Log),
        log_name_kind(base + seq![46u8, 108u8, 111u8, 103u8, 46u8, 103u8, 122u8]) == Some(
            LogFileKind::CompressedLog,
        ),
        log_name_kind(base + seq![46u8, 76u8, 79u8, 71u8, 46u8, 71u8, 90u8]) == Some(LogFileKind::CompressedLog),
{
    reveal_strlit(".log");
    reveal_strlit(".log.gz");
    vstd::utf8::is_ascii_chars_encode_utf8(".log"@);
    vstd::utf8::is_ascii_chars_encode_utf8(".log.gz"@);
    let short = vstd::utf8::encode_utf8(".log"@);
    let long = vstd::utf8::encode_utf8(".log.gz"@);
    assert(short =~= seq![46u8, 108u8, 111u8, 103u8]);
    assert(long =~= seq![46u8, 108u8, 111u8, 103u8, 46u8, 103u8, 122u8]);
    let a = base + seq![46u8, 108u8, 111u8, 103u8];
    let b = base + seq![46u8, 76u8, 79u8, 71u8];
    let c = base + seq![46u8, 108u8, 111u8, 103u8, 46u8, 103u8, 122u8];
    let d = base + seq![46u8, 76u8, 79u8, 71u8, 46u8, 71u8, 90u8];
    assert(a[a.len() - 1] == 103u8);
    assert(b[b.len() - 1] == 71u8);
    if ends_with_ci(a, long) {
        assert(lower_byte(a[a.len() - long.len() + 6]) == long[6]);
    }
    if ends_with_ci(b, long) {
        assert(lower_byte(b[b.len() - long.len() + 6]) == long[6]);
    }
    assert(ends_with_ci(a, short)) by {
        assert forall|i: int| 0 <= i < short.len() implies lower_byte(#[trigger] a[a.len() - short.len() + i])
            == short[i] by {
            assert(a[a.len() - short.len() + i] == short[i]);
        }
    }
    assert(ends_with_ci(b, short)) by {
        assert forall|i: int| 0 <= i < short.len() implies lower_byte(#[trigger] b[b.len() - short.len() + i])
            == short[i] by {
            assert(b[b.len() - short.len() + i] == seq![46u8, 76u8, 79u8, 71u8][i]);
        }
    }
    assert(ends_with_ci(c, long)) by {
        assert forall|i: int| 0 <= i < long.len() implies lower_byte(#[trigger] c[c.len() - long.len() + i])
            == long[i] by {
            assert(c[c.len() - long.len() + i] == long[i]);
        }
    }
    assert(ends_with_ci(d, long)) by {
        assert forall|i: int| 0 <= i < long.len() implies lower_byte(#[trigger] d[d.len() - long.len() + i])
            == long[i] by {
            assert(d[d.len() - long.len() + i] == seq![46u8, 76u8, 79u8, 71u8, 46u8, 71u8, 90u8][i]);
        }
    }
}

} // verus!
