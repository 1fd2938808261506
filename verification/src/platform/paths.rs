//! Native paths as text, the per-user base directories, and stable location ids.
//!
//! A path is the text of a Unix path: components are separated by `/`, and a
//! path that begins with `/` is absolute.

use vstd::prelude::*;

use crate::domain::location::PlatformKind;
use crate::encoding::{hex_of, hex_prefix};
use crate::external::{blake3_digest, blake3_hash};
use crate::text::{chars_of, string_from_chars};

verus! {

/// `base` with `part` appended as `PathBuf::push` does: an absolute part
/// replaces the base, and a separator is added unless the base is empty or
/// already ends with one.
pub open spec fn path_join(base: Seq<char>, part: Seq<char>) -> Seq<char> {
    if part.len() > 0 && part[0] == '/' {
        part
    } else if base.len() == 0 || base.last() == '/' {
        base + part
    } else {
        base + seq!['/'] + part
    }
}

/// `base` joined with `part`.
pub fn join_path(base: &str, part: &str) -> (r: String)
    ensures
        r@ == path_join(base@, part@),
{
    let b = chars_of(base);
    let p = chars_of(part);
    if p.len() > 0 && p[0] == '/' {
        return string_from_chars(p.as_slice());
    }
    let mut out = b;
    if out.len() > 0 && out[out.len() - 1] != '/' {
        out.push('/');
    }
    let mut i: usize = 0;
    let ghost start = out@;
    while i < p.len()
        invariant
            i <= p@.len(),
            out@ == start + p@.take(i as int),
        decreases p@.len() - i,
    {
        out.push(p[i]);
        assert(p@.take(i + 1) =~= p@.take(i as int).push(p@[i as int]));
        i = i + 1;
    }
    assert(p@.take(p@.len() as int) =~= p@);
    proof {
        if !(b@.len() == 0 || b@.last() == '/') {
            assert(start =~= b@ + seq!['/']);
        }
    }
    string_from_chars(out.as_slice())
}

/// `base` joined with each of `parts` in turn.
pub open spec fn path_join_all(base: Seq<char>, parts: Seq<Seq<char>>) -> Seq<char>
    decreases parts.len(),
{
    if parts.len() == 0 {
        base
    } else {
        path_join(path_join_all(base, parts.drop_last()), parts.last())
    }
}

/// The base directories of the current user that launchers live under.
#[derive(Clone, Debug)]
pub struct PlatformPaths {
    pub platform: PlatformKind,
    pub home: Option<String>,
    pub roaming_data: Option<String>,
}

impl PlatformPaths {
    pub fn test(platform: PlatformKind, home: String, roaming_data: String) -> (r: PlatformPaths)
        ensures
            r.platform == platform,
            r.home == Some(home),
            r.roaming_data == Some(roaming_data),
    {
        PlatformPaths { platform, home: Some(home), roaming_data: Some(roaming_data) }
    }
}

/// Windows roaming application data: `%APPDATA%` when set, else the profile's `AppData/Roaming`.
pub open spec fn roaming_data_spec(app_data: Option<Seq<char>>, user_profile: Option<Seq<char>>) -> Option<
    Seq<char>,
> {
    match app_data {
        Some(a) => Some(a),
        None => match user_profile {
            Some(p) => Some(path_join(path_join(p, "AppData"@), "Roaming"@)),
            None => None,
        },
    }
}

pub open spec fn opt_string_view(o: Option<String>) -> Option<Seq<char>> {
    match o {
        Some(s) => Some(s@),
        None => None,
    }
}

pub fn windows_roaming_data(app_data: Option<String>, user_profile: Option<String>) -> (r: Option<
    String,
>)
    ensures
        opt_string_view(r) == roaming_data_spec(opt_string_view(app_data), opt_string_view(user_profile)),
{
    match app_data {
        Some(a) => Some(a),
        None => match user_profile {
            Some(p) => {
                let with_app_data = join_path(p.as_str(), "AppData");
                Some(join_path(with_app_data.as_str(), "Roaming"))
            },
            None => None,
        },
    }
}

/// `loc_` followed by the first 24 hexadecimal digits of the BLAKE3 digest of the key.
pub open spec fn location_id_spec(path_key: Seq<u8>) -> Seq<char> {
    "loc_"@ + hex_of(blake3_digest(path_key)).take(24)
}

/// A location id that stays the same for the same native path key.
pub fn stable_location_id(path_key: &[u8]) -> (r: String)
    ensures
        r@ == location_id_spec(path_key@),
{
    let digest = blake3_hash(path_key);
    let hex = hex_prefix(&digest, 24);
    let mut out = chars_of("loc_");
    let h = chars_of(hex.as_str());
    let ghost start = out@;
    let mut i: usize = 0;
    while i < h.len()
        invariant
            i <= h@.len(),
            out@ == start + h@.take(i as int),
        decreases h@.len() - i,
    {
        out.push(h[i]);
        assert(h@.take(i + 1) =~= h@.take(i as int).push(h@[i as int]));
        i = i + 1;
    }
    assert(h@.take(h@.len() as int) =~= h@);
    proof {
        assert(digest@.len() == 32);
        assert(hex_of(blake3_digest(path_key@)).take(24) == hex@);
    }
    string_from_chars(out.as_slice())
}

} // verus!
