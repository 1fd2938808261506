//! Text encodings of bytes and numbers: lowercase hexadecimal and decimal.

use vstd::prelude::*;

use crate::text::string_from_chars;

verus! {

/// The lowercase hexadecimal digit of a value below 16.
pub open spec fn hex_digit(n: int) -> char {
    if n < 10 {
        (48 + n) as char
    } else {
        (87 + n) as char
    }
}

/// Two lowercase hexadecimal digits per byte, most significant first.
pub open spec fn hex_of(bytes: Seq<u8>) -> Seq<char>
    decreases bytes.len(),
{
    if bytes.len() == 0 {
        Seq::empty()
    } else {
        hex_of(bytes.drop_last()) + seq![
            hex_digit(bytes.last() as int / 16),
            hex_digit(bytes.last() as int % 16),
        ]
    }
}

pub proof fn lemma_hex_of_len(bytes: Seq<u8>)
    ensures
        hex_of(bytes).len() == 2 * bytes.len(),
    decreases bytes.len(),
{
    if bytes.len() > 0 {
        lemma_hex_of_len(bytes.drop_last());
    }
}

fn hex_digit_exec(n: u8) -> (r: char)
    requires
        n < 16,
    ensures
        r == hex_digit(n as int),
{
    if n < 10 {
        (48 + n) as char
    } else {
        (87 + n) as char
    }
}

/// The hexadecimal text of `bytes`, cut to its first `length` characters.
pub fn hex_prefix(bytes: &[u8], length: usize) -> (r: String)
    ensures
        r@ == hex_of(bytes@).take(if length < 2 * bytes@.len() { length as int } else { 2 * bytes@.len() as int }),
{
    let mut out: Vec<char> = Vec::new();
    let mut i: usize = 0;
    while i < bytes.len()
        invariant
            i <= bytes@.len(),
            out@ == hex_of(bytes@.take(i as int)),
        decreases bytes@.len() - i,
    {
        let b = bytes[i];
        out.push(hex_digit_exec(b / 16));
        out.push(hex_digit_exec(b % 16));
        assert(bytes@.take(i + 1).drop_last() =~= bytes@.take(i as int));
        i = i + 1;
    }
    assert(bytes@.take(bytes@.len() as int) =~= bytes@);
    proof {
        lemma_hex_of_len(bytes@);
    }
    let n = if length < out.len() { length } else { out.len() };
    let mut cut: Vec<char> = Vec::new();
    let mut j: usize = 0;
    while j < n
        invariant
            j <= n <= out@.len(),
            cut@ == out@.take(j as int),
        decreases n - j,
    {
        cut.push(out[j]);
        assert(out@.take(j + 1) =~= out@.take(j as int).push(out@[j as int]));
        j = j + 1;
    }
    string_from_chars(cut.as_slice())
}

/// The decimal digits of a natural number, without leading zeros.
pub open spec fn decimal_of(n: nat) -> Seq<char>
    decreases n,
{
    if n < 10 {
        seq![(48 + n) as char]
    } else {
        decimal_of(n / 10) + seq![(48 + n % 10) as char]
    }
}

/// The decimal text of `n`.
pub fn decimal_chars(n: u64) -> (r: Vec<char>)
    ensures
        r@ == decimal_of(n as nat),
    decreases n,
{
    if n < 10 {
        let d: u8 = n as u8;
        let mut v: Vec<char> = Vec::new();
        v.push((48 + d) as char);
        v
    } else {
        let mut v = decimal_chars(n / 10);
        let d: u8 = (n % 10) as u8;
        v.push((48 + d) as char);
        v
    }
}

/// The character of a six-bit value in the standard base64 alphabet.
pub open spec fn b64_char(n: int) -> char {
    if n < 26 {
        (65 + n) as char
    } else if n < 52 {
        (97 + n - 26) as char
    } else if n < 62 {
        (48 + n - 52) as char
    } else if n == 62 {
        '+'
    } else {
        '/'
    }
}

/// Four characters for a group of one to three bytes, padded with `=`.
pub open spec fn b64_group(g: Seq<u8>) -> Seq<char> {
    let a = g[0] as int;
    let b = if g.len() > 1 { g[1] as int } else { 0 };
    let c = if g.len() > 2 { g[2] as int } else { 0 };
    seq![
        b64_char(a / 4),
        b64_char((a % 4) * 16 + b / 16),
        if g.len() > 1 { b64_char((b % 16) * 4 + c / 64) } else { '=' },
        if g.len() > 2 { b64_char(c % 64) } else { '=' },
    ]
}

/// Standard padded base64 of a byte sequence, three bytes at a time.
pub open spec fn base64_of(bytes: Seq<u8>) -> Seq<char>
    decreases bytes.len(),
{
    if bytes.len() == 0 {
        Seq::empty()
    } else if bytes.len() <= 3 {
        b64_group(bytes)
    } else {
        b64_group(bytes.take(3)) + base64_of(bytes.skip(3))
    }
}

fn b64_char_exec(n: u8) -> (r: char)
    requires
        n < 64,
    ensures
        r == b64_char(n as int),
{
    if n < 26 {
        (65 + n) as char
    } else if n < 52 {
        (97 + n - 26) as char
    } else if n < 62 {
        (48 + n - 52) as char
    } else if n == 62 {
        '+'
    } else {
        '/'
    }
}

proof fn lemma_base64_split(bytes: Seq<u8>, k: int)
    requires
        0 <= k <= bytes.len(),
        k % 3 == 0,
    ensures
        base64_of(bytes) == base64_of(bytes.take(k)) + base64_of(bytes.skip(k)),
    decreases k,
{
    if k == 0 {
        assert(bytes.take(0) =~= Seq::<u8>::empty());
        assert(bytes.skip(0) =~= bytes);
        assert(Seq::<char>::empty() + base64_of(bytes) =~= base64_of(bytes));
    } else {
        lemma_base64_split(bytes.skip(3), k - 3);
        assert(bytes.skip(3).take(k - 3) =~= bytes.take(k).skip(3));
        assert(bytes.skip(3).skip(k - 3) =~= bytes.skip(k));
        assert(bytes.take(k).take(3) =~= bytes.take(3));
        if bytes.len() <= 3 {
            assert(k == 3);
            assert(bytes.take(k) =~= bytes);
            assert(bytes.skip(k) =~= Seq::<u8>::empty());
            assert(base64_of(bytes) + Seq::<char>::empty() =~= base64_of(bytes));
        } else if k == 3 {
            assert(bytes.take(3).len() == 3);
        } else {
            assert(base64_of(bytes.take(k)) == b64_group(bytes.take(3)) + base64_of(bytes.take(k).skip(3)));
            assert(b64_group(bytes.take(3)) + (base64_of(bytes.skip(3).take(k - 3)) + base64_of(bytes.skip(k)))
                =~= (b64_group(bytes.take(3)) + base64_of(bytes.skip(3).take(k - 3))) + base64_of(bytes.skip(k)));
        }
    }
}

/// Standard padded base64 text of `bytes`.
pub fn base64_encode(bytes: &[u8]) -> (r: String)
    ensures
        r@ == base64_of(bytes@),
{
    let mut out: Vec<char> = Vec::new();
    let mut i: usize = 0;
    while i < bytes.len()
        invariant
            i <= bytes@.len(),
            i % 3 == 0 || i == bytes@.len(),
            out@ == base64_of(bytes@.take(i as int)),
        decreases bytes@.len() - i,
    {
        let n = bytes.len() - i;
        let a = bytes[i];
        let b: u8 = if n > 1 { bytes[i + 1] } else { 0 };
        let c: u8 = if n > 2 { bytes[i + 2] } else { 0 };
        let ghost g = bytes@.subrange(i as int, if n > 3 { i + 3 } else { bytes@.len() as int });
        out.push(b64_char_exec(a / 4));
        out.push(b64_char_exec((a % 4) * 16 + b / 16));
        out.push(if n > 1 { b64_char_exec((b % 16) * 4 + c / 64) } else { '=' });
        out.push(if n > 2 { b64_char_exec(c % 64) } else { '=' });
        let next: usize = if n > 3 { i + 3 } else { bytes.len() };
        proof {
            let t = bytes@.take(next as int);
            assert(g =~= t.skip(i as int));
            assert(g[0] == a);
            if n > 1 { assert(g[1] == b); }
            if n > 2 { assert(g[2] == c); }
            if g.len() <= 3 {
                assert(base64_of(g) == b64_group(g));
            }
            assert(base64_of(g) =~= b64_group(g));
            lemma_base64_split(t, i as int);
            assert(t.take(i as int) =~= bytes@.take(i as int));
        }
        i = next;
    }
    assert(bytes@.take(bytes@.len() as int) =~= bytes@);
    string_from_chars(out.as_slice())
}

} // verus!
