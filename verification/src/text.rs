//! Character-level text model shared by the parsers.
//!
//! Text is handled as sequences of Unicode scalar values. Matching against
//! ASCII markers never depends on the byte encoding, so every search, trim and
//! split below is stated over `Seq<char>` and proved against that statement.

use vstd::prelude::*;

verus! {

/// The Unicode `White_Space` property, which `char::is_whitespace`,
/// `str::trim` and `str::split_whitespace` use.
pub open spec fn is_white_space(c: char) -> bool {
    let u = c as u32;
    ||| 0x09 <= u <= 0x0D
    ||| u == 0x20
    ||| u == 0x85
    ||| u == 0xA0
    ||| u == 0x1680
    ||| 0x2000 <= u <= 0x200A
    ||| u == 0x2028
    ||| u == 0x2029
    ||| u == 0x202F
    ||| u == 0x205F
    ||| u == 0x3000
}

/// ASCII-only lowercase mapping of one character.
pub open spec fn lower_char(c: char) -> char {
    if 'A' <= c && c <= 'Z' {
        ((c as u32) + 32) as char
    } else {
        c
    }
}

/// ASCII-only uppercase mapping of one character.
pub open spec fn upper_char(c: char) -> char {
    if 'a' <= c && c <= 'z' {
        ((c as u32) - 32) as char
    } else {
        c
    }
}

pub open spec fn lower_seq(s: Seq<char>) -> Seq<char> {
    s.map_values(|c: char| lower_char(c))
}

pub open spec fn is_ascii_digit(c: char) -> bool {
    '0' <= c && c <= '9'
}

pub open spec fn is_ascii_hexdigit(c: char) -> bool {
    ||| is_ascii_digit(c)
    ||| 'a' <= c && c <= 'f'
    ||| 'A' <= c && c <= 'F'
}

pub open spec fn is_ascii_lowercase(c: char) -> bool {
    'a' <= c && c <= 'z'
}

pub open spec fn all_ascii_digits(s: Seq<char>) -> bool {
    forall|i: int| 0 <= i < s.len() ==> is_ascii_digit(#[trigger] s[i])
}

/// Character classes that the parsers strip from the ends of a value.
#[derive(Clone, Copy, PartialEq, Eq, Structural)]
pub enum TrimSet {
    Whitespace,
    VersionPunctuation,
    Quotes,
    DotOrSemicolon,
    Dot,
    Slash,
}

pub open spec fn in_trim_set(set: TrimSet, c: char) -> bool {
    match set {
        TrimSet::Whitespace => is_white_space(c),
        TrimSet::VersionPunctuation => c == ',' || c == ';' || c == ':' || c == '\'' || c == '"'
            || c == '(' || c == ')' || c == '[' || c == ']',
        TrimSet::Quotes => c == '\'' || c == '"',
        TrimSet::DotOrSemicolon => c == '.' || c == ';',
        TrimSet::Dot => c == '.',
        TrimSet::Slash => c == '/',
    }
}

/// `s` without its leading characters of `set`.
pub open spec fn trim_start_by(s: Seq<char>, set: TrimSet) -> Seq<char>
    decreases s.len(),
{
    if s.len() > 0 && in_trim_set(set, s[0]) {
        trim_start_by(s.drop_first(), set)
    } else {
        s
    }
}

/// `s` without its trailing characters of `set`.
pub open spec fn trim_end_by(s: Seq<char>, set: TrimSet) -> Seq<char>
    decreases s.len(),
{
    if s.len() > 0 && in_trim_set(set, s.last()) {
        trim_end_by(s.drop_last(), set)
    } else {
        s
    }
}

pub open spec fn trim_by(s: Seq<char>, set: TrimSet) -> Seq<char> {
    trim_end_by(trim_start_by(s, set), set)
}

pub open spec fn trim_ws(s: Seq<char>) -> Seq<char> {
    trim_by(s, TrimSet::Whitespace)
}

pub open spec fn trim_start_ws(s: Seq<char>) -> Seq<char> {
    trim_start_by(s, TrimSet::Whitespace)
}

/// The characters of `s` before its first whitespace character.
pub open spec fn until_ws(s: Seq<char>) -> Seq<char>
    decreases s.len(),
{
    if s.len() == 0 || is_white_space(s[0]) {
        Seq::empty()
    } else {
        seq![s[0]] + until_ws(s.drop_first())
    }
}

/// The first item of `split_whitespace`.
pub open spec fn first_token(s: Seq<char>) -> Option<Seq<char>> {
    let t = trim_start_ws(s);
    if t.len() == 0 {
        None
    } else {
        Some(until_ws(t))
    }
}

pub open spec fn match_at(h: Seq<char>, n: Seq<char>, i: int) -> bool {
    0 <= i && i + n.len() <= h.len() && h.subrange(i, i + n.len()) == n
}

/// Position of the first occurrence of `n` in `h` at or after `i`.
pub open spec fn find_from(h: Seq<char>, n: Seq<char>, i: nat) -> Option<nat>
    decreases h.len() + 1 - i,
{
    if i + n.len() > h.len() {
        None
    } else if match_at(h, n, i as int) {
        Some(i)
    } else {
        find_from(h, n, i + 1)
    }
}

/// `str::find`: position of the first occurrence of `n` in `h`.
pub open spec fn find(h: Seq<char>, n: Seq<char>) -> Option<nat> {
    find_from(h, n, 0)
}

pub open spec fn contains(h: Seq<char>, n: Seq<char>) -> bool {
    find(h, n) is Some
}

pub open spec fn starts_with(h: Seq<char>, n: Seq<char>) -> bool {
    n.len() <= h.len() && h.subrange(0, n.len() as int) == n
}

pub open spec fn ends_with(h: Seq<char>, n: Seq<char>) -> bool {
    n.len() <= h.len() && h.subrange(h.len() - n.len(), h.len() as int) == n
}

/// Last occurrence of `n` in `h` among the positions below `k`.
pub open spec fn rfind_below(h: Seq<char>, n: Seq<char>, k: nat) -> Option<nat>
    decreases k,
{
    if k == 0 {
        None
    } else if match_at(h, n, k - 1) {
        Some((k - 1) as nat)
    } else {
        rfind_below(h, n, (k - 1) as nat)
    }
}

/// `str::rfind`: position of the last occurrence of `n` in `h`.
pub open spec fn rfind(h: Seq<char>, n: Seq<char>) -> Option<nat> {
    rfind_below(h, n, h.len() + 1)
}

/// `str::rsplit_once`.
pub open spec fn rsplit_once(h: Seq<char>, n: Seq<char>) -> Option<(Seq<char>, Seq<char>)> {
    match rfind(h, n) {
        Some(i) => Some((h.subrange(0, i as int), h.subrange((i + n.len()) as int, h.len() as int))),
        None => None,
    }
}

/// `str::split_once`.
pub open spec fn split_once(h: Seq<char>, n: Seq<char>) -> Option<(Seq<char>, Seq<char>)> {
    match find(h, n) {
        Some(i) => Some((h.subrange(0, i as int), h.subrange((i + n.len()) as int, h.len() as int))),
        None => None,
    }
}

/// The first item of `str::split`.
pub open spec fn split_first(h: Seq<char>, n: Seq<char>) -> Seq<char> {
    match find(h, n) {
        Some(i) => h.subrange(0, i as int),
        None => h,
    }
}

pub proof fn lemma_find_from_bound(h: Seq<char>, n: Seq<char>, i: nat)
    ensures
        find_from(h, n, i) matches Some(j) ==> i <= j && match_at(h, n, j as int),
    decreases h.len() + 1 - i,
{
    if i + n.len() <= h.len() && !match_at(h, n, i as int) {
        lemma_find_from_bound(h, n, i + 1);
    }
}

pub proof fn lemma_rfind_below_bound(h: Seq<char>, n: Seq<char>, k: nat)
    ensures
        rfind_below(h, n, k) matches Some(j) ==> j < k && match_at(h, n, j as int),
    decreases k,
{
    if k > 0 && !match_at(h, n, k - 1) {
        lemma_rfind_below_bound(h, n, (k - 1) as nat);
    }
}

pub proof fn lemma_find_some(h: Seq<char>, n: Seq<char>)
    ensures
        find(h, n) matches Some(j) ==> match_at(h, n, j as int),
{
    lemma_find_from_bound(h, n, 0);
}

pub proof fn lemma_rfind_some(h: Seq<char>, n: Seq<char>)
    ensures
        rfind(h, n) matches Some(j) ==> match_at(h, n, j as int),
{
    lemma_rfind_below_bound(h, n, h.len() + 1);
}

/// Builds a `String` holding exactly the given characters.
///
/// Calls `FromIterator<char>` for `String` (`collect`), which appends the
/// characters in order; the contract claims only that.
#[verifier::external_body]
pub fn string_from_chars(cs: &[char]) -> (s: String)
    ensures
        s@ == cs@,
{
    cs.iter().collect()
}

/// The characters of a string slice, in order.
pub fn chars_of(s: &str) -> (r: Vec<char>)
    ensures
        r@ == s@,
{
    let mut v: Vec<char> = Vec::new();
    for c in it: s.chars()
        invariant
            v@ == it.seq().take(it.index() as int),
    {
        v.push(c);
    }
    v
}

pub fn is_white_space_char(c: char) -> (r: bool)
    ensures
        r == is_white_space(c),
{
    let u = c as u32;
    (0x09 <= u && u <= 0x0D) || u == 0x20 || u == 0x85 || u == 0xA0 || u == 0x1680 || (0x2000
        <= u && u <= 0x200A) || u == 0x2028 || u == 0x2029 || u == 0x202F || u == 0x205F || u
        == 0x3000
}

pub fn lower_char_exec(c: char) -> (r: char)
    ensures
        r == lower_char(c),
{
    if 'A' <= c && c <= 'Z' {
        let b: u8 = c as u8;
        (b + 32) as char
    } else {
        c
    }
}

pub fn upper_char_exec(c: char) -> (r: char)
    ensures
        r == upper_char(c),
{
    if 'a' <= c && c <= 'z' {
        let b: u8 = c as u8;
        (b - 32) as char
    } else {
        c
    }
}

pub fn is_ascii_digit_char(c: char) -> (r: bool)
    ensures
        r == is_ascii_digit(c),
{
    '0' <= c && c <= '9'
}

pub fn is_ascii_hexdigit_char(c: char) -> (r: bool)
    ensures
        r == is_ascii_hexdigit(c),
{
    ('0' <= c && c <= '9') || ('a' <= c && c <= 'f') || ('A' <= c && c <= 'F')
}

pub fn in_trim_set_exec(set: TrimSet, c: char) -> (r: bool)
    ensures
        r == in_trim_set(set, c),
{
    match set {
        TrimSet::Whitespace => is_white_space_char(c),
        TrimSet::VersionPunctuation => c == ',' || c == ';' || c == ':' || c == '\'' || c == '"'
            || c == '(' || c == ')' || c == '[' || c == ']',
        TrimSet::Quotes => c == '\'' || c == '"',
        TrimSet::DotOrSemicolon => c == '.' || c == ';',
        TrimSet::Dot => c == '.',
        TrimSet::Slash => c == '/',
    }
}

/// ASCII lowercase copy (`str::to_ascii_lowercase`).
pub fn lower_chars(s: &[char]) -> (r: Vec<char>)
    ensures
        r@ == lower_seq(s@),
{
    let mut r: Vec<char> = Vec::new();
    let mut i: usize = 0;
    while i < s.len()
        invariant
            i <= s.len(),
            r@ == lower_seq(s@.subrange(0, i as int)),
        decreases s.len() - i,
    {
        r.push(lower_char_exec(s[i]));
        i = i + 1;
        assert(lower_seq(s@.subrange(0, i as int)) =~= lower_seq(s@.subrange(0, (i - 1) as int)).push(
            lower_char(s@[i - 1]),
        ));
    }
    assert(s@.subrange(0, s@.len() as int) =~= s@);
    r
}

/// Copy of `s[start..end]`.
pub fn slice_chars(s: &[char], start: usize, end: usize) -> (r: Vec<char>)
    requires
        start <= end <= s.len(),
    ensures
        r@ == s@.subrange(start as int, end as int),
{
    let mut r: Vec<char> = Vec::new();
    let mut i: usize = start;
    while i < end
        invariant
            start <= i <= end <= s.len(),
            r@ == s@.subrange(start as int, i as int),
        decreases end - i,
    {
        r.push(s[i]);
        i = i + 1;
        assert(r@ =~= s@.subrange(start as int, i as int));
    }
    r
}

proof fn lemma_trim_start_step(s: Seq<char>, i: int, set: TrimSet)
    requires
        0 <= i < s.len(),
        in_trim_set(set, s[i]),
    ensures
        trim_start_by(s.subrange(i, s.len() as int), set) == trim_start_by(
            s.subrange(i + 1, s.len() as int),
            set,
        ),
{
    assert(s.subrange(i, s.len() as int).drop_first() =~= s.subrange(i + 1, s.len() as int));
}

proof fn lemma_trim_end_step(s: Seq<char>, j: int, set: TrimSet)
    requires
        0 < j <= s.len(),
        in_trim_set(set, s[j - 1]),
    ensures
        trim_end_by(s.subrange(0, j), set) == trim_end_by(s.subrange(0, j - 1), set),
{
    assert(s.subrange(0, j).drop_last() =~= s.subrange(0, j - 1));
}

/// Index of the first character of `s[from..]` outside `set`.
pub fn trim_start_index(s: &[char], from: usize, set: TrimSet) -> (r: usize)
    requires
        from <= s.len(),
    ensures
        from <= r <= s.len(),
        trim_start_by(s@.subrange(from as int, s.len() as int), set) == s@.subrange(
            r as int,
            s.len() as int,
        ),
{
    let mut i = from;
    while i < s.len() && in_trim_set_exec(set, s[i])
        invariant
            from <= i <= s.len(),
            trim_start_by(s@.subrange(from as int, s.len() as int), set) == trim_start_by(
                s@.subrange(i as int, s.len() as int),
                set,
            ),
        decreases s.len() - i,
    {
        proof {
            lemma_trim_start_step(s@, i as int, set);
        }
        i = i + 1;
    }
    proof {
        r_trim_start_fixpoint(s@, i as int, set);
    }
    i
}

proof fn r_trim_start_fixpoint(s: Seq<char>, i: int, set: TrimSet)
    requires
        0 <= i <= s.len(),
        i == s.len() || !in_trim_set(set, s[i]),
    ensures
        trim_start_by(s.subrange(i, s.len() as int), set) == s.subrange(i, s.len() as int),
{
    let t = s.subrange(i, s.len() as int);
    if t.len() > 0 {
        assert(t[0] == s[i]);
    }
}

/// Index `r` such that `s[..r]` is `s[..to]` without its trailing characters of `set`.
pub fn trim_end_index(s: &[char], to: usize, set: TrimSet) -> (r: usize)
    requires
        to <= s.len(),
    ensures
        r <= to,
        trim_end_by(s@.subrange(0, to as int), set) == s@.subrange(0, r as int),
{
    let mut j = to;
    while j > 0 && in_trim_set_exec(set, s[j - 1])
        invariant
            j <= to <= s.len(),
            trim_end_by(s@.subrange(0, to as int), set) == trim_end_by(
                s@.subrange(0, j as int),
                set,
            ),
        decreases j,
    {
        proof {
            lemma_trim_end_step(s@, j as int, set);
        }
        j = j - 1;
    }
    proof {
        let t = s@.subrange(0, j as int);
        if t.len() > 0 {
            assert(t.last() == s@[j - 1]);
        }
    }
    j
}

/// `s` with the characters of `set` removed from both ends.
pub fn trim_chars(s: &[char], set: TrimSet) -> (r: Vec<char>)
    ensures
        r@ == trim_by(s@, set),
{
    let a = trim_start_index(s, 0, set);
    assert(s@.subrange(0, s@.len() as int) =~= s@);
    let rest = slice_chars(s, a, s.len());
    let b = trim_end_index(rest.as_slice(), rest.len(), set);
    assert(rest@.subrange(0, rest@.len() as int) =~= rest@);
    slice_chars(rest.as_slice(), 0, b)
}

/// `s` without leading characters of `set`.
pub fn trim_start_chars(s: &[char], set: TrimSet) -> (r: Vec<char>)
    ensures
        r@ == trim_start_by(s@, set),
{
    let a = trim_start_index(s, 0, set);
    assert(s@.subrange(0, s@.len() as int) =~= s@);
    slice_chars(s, a, s.len())
}

/// `s` without trailing characters of `set`.
pub fn trim_end_chars(s: &[char], set: TrimSet) -> (r: Vec<char>)
    ensures
        r@ == trim_end_by(s@, set),
{
    let b = trim_end_index(s, s.len(), set);
    assert(s@.subrange(0, s@.len() as int) =~= s@);
    slice_chars(s, 0, b)
}

/// Whether `n` occurs in `h` at position `i`.
pub fn matches_at(h: &[char], n: &[char], i: usize) -> (r: bool)
    ensures
        r == match_at(h@, n@, i as int),
{
    if i > h.len() || n.len() > h.len() - i {
        return false;
    }
    let mut k: usize = 0;
    while k < n.len()
        invariant
            i + n.len() <= h.len(),
            k <= n.len(),
            forall|m: int| 0 <= m < k ==> h@[i + m] == n@[m],
        decreases n.len() - k,
    {
        if h[i + k] != n[k] {
            assert(h@.subrange(i as int, i + n.len())[k as int] != n@[k as int]);
            return false;
        }
        k = k + 1;
    }
    assert(h@.subrange(i as int, i + n.len()) =~= n@);
    true
}

/// `str::find`.
pub fn find_chars(h: &[char], n: &[char]) -> (r: Option<usize>)
    ensures
        r matches Some(i) ==> find(h@, n@) == Some(i as nat),
        r is None ==> find(h@, n@) is None,
{
    if n.len() > h.len() {
        return None;
    }
    let last = h.len() - n.len();
    let mut i: usize = 0;
    loop
        invariant
            n.len() <= h.len(),
            last == h.len() - n.len(),
            i <= last,
            find(h@, n@) == find_from(h@, n@, i as nat),
        decreases last - i,
    {
        if matches_at(h, n, i) {
            return Some(i);
        }
        if i == last {
            assert(find_from(h@, n@, (i + 1) as nat) is None);
            return None;
        }
        i = i + 1;
    }
}

/// `str::rfind`.
pub fn rfind_chars(h: &[char], n: &[char]) -> (r: Option<usize>)
    ensures
        r matches Some(i) ==> rfind(h@, n@) == Some(i as nat),
        r is None ==> rfind(h@, n@) is None,
{
    if n.len() == 0 {
        assert(h@.subrange(h@.len() as int, h@.len() as int) =~= n@);
        return Some(h.len());
    }
    let mut k: usize = h.len();
    assert(!match_at(h@, n@, h@.len() as int));
    while k > 0
        invariant
            k <= h.len(),
            n@.len() > 0,
            rfind(h@, n@) == rfind_below(h@, n@, k as nat),
        decreases k,
    {
        if matches_at(h, n, k - 1) {
            return Some(k - 1);
        }
        k = k - 1;
    }
    None
}

pub fn starts_with_chars(h: &[char], n: &[char]) -> (r: bool)
    ensures
        r == starts_with(h@, n@),
{
    matches_at(h, n, 0)
}

pub fn ends_with_chars(h: &[char], n: &[char]) -> (r: bool)
    ensures
        r == ends_with(h@, n@),
{
    if n.len() > h.len() {
        false
    } else {
        matches_at(h, n, h.len() - n.len())
    }
}

pub fn contains_chars(h: &[char], n: &[char]) -> (r: bool)
    ensures
        r == contains(h@, n@),
{
    find_chars(h, n).is_some()
}

pub fn eq_chars(a: &[char], b: &[char]) -> (r: bool)
    ensures
        r == (a@ == b@),
{
    if a.len() != b.len() {
        return false;
    }
    let r = matches_at(a, b, 0);
    proof {
        if r {
            assert(a@.subrange(0, b@.len() as int) =~= a@);
        } else {
            if a@ == b@ {
                assert(a@.subrange(0, b@.len() as int) =~= a@);
            }
        }
    }
    r
}

/// Whether every character is an ASCII digit.
pub fn all_ascii_digits_chars(s: &[char]) -> (r: bool)
    ensures
        r == all_ascii_digits(s@),
{
    let mut i: usize = 0;
    while i < s.len()
        invariant
            i <= s.len(),
            forall|k: int| 0 <= k < i ==> is_ascii_digit(#[trigger] s@[k]),
        decreases s.len() - i,
    {
        if !is_ascii_digit_char(s[i]) {
            return false;
        }
        i = i + 1;
    }
    true
}

proof fn lemma_until_ws_step(s: Seq<char>, i: int)
    requires
        0 <= i < s.len(),
        !is_white_space(s[i]),
        forall|k: int| 0 <= k < i ==> !is_white_space(#[trigger] s[k]),
    ensures
        until_ws(s.subrange(i, s.len() as int)) == seq![s[i]] + until_ws(
            s.subrange(i + 1, s.len() as int),
        ),
{
    assert(s.subrange(i, s.len() as int).drop_first() =~= s.subrange(i + 1, s.len() as int));
}

/// Index of the first whitespace character of `s`, or its length.
pub fn until_ws_len(s: &[char]) -> (r: usize)
    ensures
        r <= s.len(),
        until_ws(s@) == s@.subrange(0, r as int),
{
    let mut i: usize = 0;
    assert(s@.subrange(0, s@.len() as int) =~= s@);
    assert(s@.subrange(0, 0) + until_ws(s@) =~= until_ws(s@));
    while i < s.len() && !is_white_space_char(s[i])
        invariant
            i <= s.len(),
            until_ws(s@) == s@.subrange(0, i as int) + until_ws(s@.subrange(i as int, s.len() as int)),
        decreases s.len() - i,
    {
        proof {
            assert(s@.subrange(i as int, s.len() as int).drop_first() =~= s@.subrange(
                i + 1,
                s.len() as int,
            ));
            assert(s@.subrange(0, i as int) + seq![s@[i as int]] =~= s@.subrange(0, i + 1));
            assert(s@.subrange(i as int, s.len() as int)[0] == s@[i as int]);
        }
        i = i + 1;
    }
    proof {
        let t = s@.subrange(i as int, s.len() as int);
        if t.len() > 0 {
            assert(t[0] == s@[i as int]);
        }
        assert(until_ws(t) =~= Seq::<char>::empty());
        assert(s@.subrange(0, i as int) + Seq::<char>::empty() =~= s@.subrange(0, i as int));
    }
    i
}

/// The first item of `split_whitespace`.
pub fn first_token_chars(s: &[char]) -> (r: Option<Vec<char>>)
    ensures
        r matches Some(t) ==> first_token(s@) == Some(t@),
        r is None ==> first_token(s@) is None,
{
    let t = trim_start_chars(s, TrimSet::Whitespace);
    if t.len() == 0 {
        return None;
    }
    let n = until_ws_len(t.as_slice());
    Some(slice_chars(t.as_slice(), 0, n))
}

/// `eq_ignore_ascii_case`.
pub fn eq_ignore_ascii_case_chars(a: &[char], b: &[char]) -> (r: bool)
    ensures
        r == (lower_seq(a@) == lower_seq(b@)),
{
    let x = lower_chars(a);
    let y = lower_chars(b);
    eq_chars(x.as_slice(), y.as_slice())
}

/// Equality of two string slices, by their characters.
pub fn str_eq(a: &str, b: &str) -> (r: bool)
    ensures
        r == (a@ == b@),
{
    let x = chars_of(a);
    let y = chars_of(b);
    eq_chars(x.as_slice(), y.as_slice())
}

/// Appends the characters of `s`.
pub fn append_chars(v: &mut Vec<char>, s: &[char])
    ensures
        final(v)@ == old(v)@ + s@,
{
    let mut i: usize = 0;
    while i < s.len()
        invariant
            i <= s@.len(),
            v@ == old(v)@ + s@.take(i as int),
        decreases s@.len() - i,
    {
        v.push(s[i]);
        assert(s@.take(i + 1) =~= s@.take(i as int).push(s@[i as int]));
        i = i + 1;
    }
    assert(s@.take(s@.len() as int) =~= s@);
}

/// The number of occurrences of `c` in `s`.
pub open spec fn count_char(s: Seq<char>, c: char) -> nat
    decreases s.len(),
{
    if s.len() == 0 {
        0
    } else {
        count_char(s.drop_last(), c) + if s.last() == c { 1nat } else { 0nat }
    }
}

pub fn count_char_exec(s: &[char], c: char) -> (r: usize)
    ensures
        r == count_char(s@, c),
{
    let mut n: usize = 0;
    let mut i: usize = 0;
    while i < s.len()
        invariant
            i <= s@.len(),
            n == count_char(s@.take(i as int), c),
            n <= i,
        decreases s@.len() - i,
    {
        assert(s@.take(i + 1).drop_last() =~= s@.take(i as int));
        if s[i] == c {
            n = n + 1;
        }
        i = i + 1;
    }
    assert(s@.take(s@.len() as int) =~= s@);
    n
}

/// The pieces of `s` between occurrences of `sep` (`str::split`).
pub open spec fn split_parts(s: Seq<char>, sep: char) -> Seq<Seq<char>>
    decreases s.len(),
{
    match find(s, seq![sep]) {
        Some(i) => if i < s.len() {
            seq![s.subrange(0, i as int)] + split_parts(s.subrange(i + 1int, s.len() as int), sep)
        } else {
            seq![s]
        },
        None => seq![s],
    }
}

/// The pieces of `s` between occurrences of `sep`.
pub fn split_chars(s: &[char], sep: char) -> (r: Vec<Vec<char>>)
    ensures
        r@.map_values(|v: Vec<char>| v@) == split_parts(s@, sep),
    decreases s@.len(),
{
    let needle = vec![sep];
    assert(needle@ =~= seq![sep]);
    match find_chars(s, needle.as_slice()) {
        Some(i) => {
            proof {
                lemma_find_some(s@, seq![sep]);
                assert(match_at(s@, seq![sep], i as int));
                assert(s@.len() == s.len());
            }
            let head = slice_chars(s, 0, i);
            let rest = slice_chars(s, i + 1, s.len());
            let tail = split_chars(rest.as_slice(), sep);
            let mut r: Vec<Vec<char>> = Vec::new();
            r.push(head);
            let ghost first = r@;
            let mut tail = tail;
            let ghost tv = tail@;
            let mut k: usize = 0;
            assert(tv.len() == tail.len());
            while tail.len() > 0
                invariant
                    tv.len() <= usize::MAX,
                    k + tail@.len() == tv.len(),
                    tail@ == tv.skip(k as int),
                    r@ == first + tv.take(k as int),
                decreases tail@.len(),
            {
                let piece = tail.remove(0);
                assert(tail@ =~= tv.skip(k + 1));
                r.push(piece);
                assert(tv.take(k + 1) =~= tv.take(k as int).push(tv[k as int]));
                k = k + 1;
            }
            assert(tv.take(k as int) =~= tv);
            assert(r@.map_values(|v: Vec<char>| v@) =~= seq![head@] + tv.map_values(|v: Vec<char>| v@));
            r
        },
        None => {
            let mut r: Vec<Vec<char>> = Vec::new();
            r.push(slice_chars(s, 0, s.len()));
            assert(s@.subrange(0, s@.len() as int) =~= s@);
            assert(r@.map_values(|v: Vec<char>| v@) =~= seq![s@]);
            r
        },
    }
}

} // verus!
