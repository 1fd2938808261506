//! Classification of a source file by its native path.

use vstd::prelude::*;

use crate::text::{
    chars_of, ends_with, ends_with_chars, eq_chars, eq_ignore_ascii_case_chars, find, find_chars,
    lemma_find_some, lemma_rfind_some, match_at, lower_chars, lower_seq, rfind, rfind_chars, slice_chars,
};

verus! {

#[derive(Clone, Copy, PartialEq, Eq, Debug, Structural)]
pub enum SourceFileKind {
    Log,
    CompressedLog,
    CrashReport,
    Stats,
    Advancements,
    LevelDat,
    ServersDat,
    Screenshot,
    ModJar,
    Unknown,
}

/// `Path::file_name`: the last component, when it is a name rather than
/// the root, `.` or `..`. Empty components and `.` components are skipped.
pub open spec fn file_name_of(p: Seq<char>) -> Option<Seq<char>>
    decreases p.len(),
{
    match rfind(p, seq!['/']) {
        Some(i) => {
            let seg = p.subrange(i + 1int, p.len() as int);
            if seg.len() == 0 || seg == seq!['.'] {
                if i < p.len() {
                    file_name_of(p.subrange(0, i as int))
                } else {
                    None
                }
            } else if seg == seq!['.', '.'] {
                None
            } else {
                Some(seg)
            }
        },
        None => if p.len() == 0 || p == seq!['.'] || p == seq!['.', '.'] {
            None
        } else {
            Some(p)
        },
    }
}

/// `Path::extension` of a file name: the text after its last `.`, unless that
/// dot begins the name.
pub open spec fn extension_of(name: Seq<char>) -> Option<Seq<char>> {
    match rfind(name, seq!['.']) {
        Some(i) => if i > 0 {
            Some(name.subrange(i + 1int, name.len() as int))
        } else {
            None
        },
        None => None,
    }
}

pub open spec fn or_empty(o: Option<Seq<char>>) -> Seq<char> {
    match o {
        Some(s) => s,
        None => Seq::empty(),
    }
}

/// Whether a `/`-separated component of `p` equals `name`, ignoring ASCII case.
pub open spec fn has_component(p: Seq<char>, name: Seq<char>) -> bool
    decreases p.len(),
{
    match find(p, seq!['/']) {
        Some(i) => if i < p.len() {
            lower_seq(p.subrange(0, i as int)) == lower_seq(name) || has_component(
                p.subrange(i + 1int, p.len() as int),
                name,
            )
        } else {
            false
        },
        None => lower_seq(p) == lower_seq(name),
    }
}

pub open spec fn classify_spec(p: Seq<char>) -> SourceFileKind {
    let name = lower_seq(or_empty(file_name_of(p)));
    let ext = match file_name_of(p) {
        Some(n) => lower_seq(or_empty(extension_of(n))),
        None => Seq::empty(),
    };
    if ends_with(name, ".log.gz"@) {
        SourceFileKind::CompressedLog
    } else if ext == "log"@ {
        SourceFileKind::Log
    } else if name == "level.dat"@ {
        SourceFileKind::LevelDat
    } else if name == "servers.dat"@ {
        SourceFileKind::ServersDat
    } else if ext == "jar"@ {
        SourceFileKind::ModJar
    } else if ext == "json"@ && has_component(p, "stats"@) {
        SourceFileKind::Stats
    } else if ext == "json"@ && has_component(p, "advancements"@) {
        SourceFileKind::Advancements
    } else if ext == "txt"@ && has_component(p, "crash-reports"@) {
        SourceFileKind::CrashReport
    } else if (ext == "png"@ || ext == "jpg"@ || ext == "jpeg"@ || ext == "webp"@) && has_component(
        p,
        "screenshots"@,
    ) {
        SourceFileKind::Screenshot
    } else {
        SourceFileKind::Unknown
    }
}

pub fn file_name_chars(p: &[char]) -> (r: Option<Vec<char>>)
    ensures
        r matches Some(v) ==> file_name_of(p@) == Some(v@),
        r is None ==> file_name_of(p@) is None,
    decreases p@.len(),
{
    let slash = vec!['/'];
    assert(slash@ =~= seq!['/']);
    match rfind_chars(p, slash.as_slice()) {
        Some(i) => {
            proof {
                lemma_rfind_some(p@, seq!['/']);
                assert(match_at(p@, seq!['/'], i as int));
                assert(p@.len() == p.len());
            }
            let seg = slice_chars(p, i + 1, p.len());
            let dot = vec!['.'];
            let dots = vec!['.', '.'];
            assert(dot@ =~= seq!['.']);
            assert(dots@ =~= seq!['.', '.']);
            if seg.len() == 0 || eq_chars(seg.as_slice(), dot.as_slice()) {
                let head = slice_chars(p, 0, i);
                file_name_chars(head.as_slice())
            } else if eq_chars(seg.as_slice(), dots.as_slice()) {
                None
            } else {
                Some(seg)
            }
        },
        None => {
            let dot = vec!['.'];
            let dots = vec!['.', '.'];
            assert(dot@ =~= seq!['.']);
            assert(dots@ =~= seq!['.', '.']);
            if p.len() == 0 || eq_chars(p, dot.as_slice()) || eq_chars(p, dots.as_slice()) {
                None
            } else {
                Some(slice_chars(p, 0, p.len()))
            }
        },
    }
}

fn extension_chars(name: &[char]) -> (r: Option<Vec<char>>)
    ensures
        r matches Some(v) ==> extension_of(name@) == Some(v@),
        r is None ==> extension_of(name@) is None,
{
    let dot = vec!['.'];
    assert(dot@ =~= seq!['.']);
    match rfind_chars(name, dot.as_slice()) {
        Some(i) => {
            proof {
                lemma_rfind_some(name@, seq!['.']);
                assert(match_at(name@, seq!['.'], i as int));
                assert(name@.len() == name.len());
            }
            if i > 0 {
                Some(slice_chars(name, i + 1, name.len()))
            } else {
                None
            }
        },
        None => None,
    }
}

fn has_component_chars(p: &[char], name: &[char]) -> (r: bool)
    ensures
        r == has_component(p@, name@),
    decreases p@.len(),
{
    let slash = vec!['/'];
    assert(slash@ =~= seq!['/']);
    match find_chars(p, slash.as_slice()) {
        Some(i) => {
            proof {
                lemma_find_some(p@, seq!['/']);
                assert(match_at(p@, seq!['/'], i as int));
                assert(p@.len() == p.len());
            }
            let seg = slice_chars(p, 0, i);
            if eq_ignore_ascii_case_chars(seg.as_slice(), name) {
                true
            } else {
                let rest = slice_chars(p, i + 1, p.len());
                has_component_chars(rest.as_slice(), name)
            }
        },
        None => eq_ignore_ascii_case_chars(p, name),
    }
}

fn is_literal(s: &[char], lit: &str) -> (r: bool)
    ensures
        r == (s@ == lit@),
{
    let l = chars_of(lit);
    eq_chars(s, l.as_slice())
}

fn component_present(p: &[char], name: &str) -> (r: bool)
    ensures
        r == has_component(p@, name@),
{
    let n = chars_of(name);
    has_component_chars(p, n.as_slice())
}

/// The kind of source a path names, from its file name, its extension and its
/// components. The path is text whose components are separated by `/`.
pub fn classify_source_path(path: &str) -> (r: SourceFileKind)
    ensures
        r == classify_spec(path@),
{
    let p = chars_of(path);
    let file_name = file_name_chars(p.as_slice());
    let (name, ext) = match file_name {
        Some(n) => {
            let lowered = lower_chars(n.as_slice());
            let e = match extension_chars(n.as_slice()) {
                Some(e) => lower_chars(e.as_slice()),
                None => Vec::new(),
            };
            (lowered, e)
        },
        None => (Vec::new(), Vec::new()),
    };
    proof {
        assert(lower_seq(Seq::<char>::empty()) =~= Seq::<char>::empty());
    }
    let gz = chars_of(".log.gz");
    if ends_with_chars(name.as_slice(), gz.as_slice()) {
        return SourceFileKind::CompressedLog;
    }
    if is_literal(ext.as_slice(), "log") {
        return SourceFileKind::Log;
    }
    if is_literal(name.as_slice(), "level.dat") {
        return SourceFileKind::LevelDat;
    }
    if is_literal(name.as_slice(), "servers.dat") {
        return SourceFileKind::ServersDat;
    }
    if is_literal(ext.as_slice(), "jar") {
        return SourceFileKind::ModJar;
    }
    let json = is_literal(ext.as_slice(), "json");
    if json && component_present(p.as_slice(), "stats") {
        return SourceFileKind::Stats;
    }
    if json && component_present(p.as_slice(), "advancements") {
        return SourceFileKind::Advancements;
    }
    if is_literal(ext.as_slice(), "txt") && component_present(p.as_slice(), "crash-reports") {
        return SourceFileKind::CrashReport;
    }
    let image = is_literal(ext.as_slice(), "png") || is_literal(ext.as_slice(), "jpg")
        || is_literal(ext.as_slice(), "jpeg") || is_literal(ext.as_slice(), "webp");
    if image && component_present(p.as_slice(), "screenshots") {
        return SourceFileKind::Screenshot;
    }
    SourceFileKind::Unknown
}

} // verus!
