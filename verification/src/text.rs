//! Building text: decimal and hexadecimal numerals, characters and string pieces.

use vstd::prelude::*;
use vstd::utf8::{encode_scalar, encode_utf8};

verus! {

/// The ASCII digit for `d` (for `0 <= d < 10`).
pub open spec fn digit_char(d: int) -> char {
    (48 + d) as char
}

/// Decimal numeral of a natural number, most significant digit first, no leading zeros.
pub open spec fn nat_decimal(n: nat) -> Seq<char>
    decreases n,
{
    if n < 10 {
        seq![digit_char(n as int)]
    } else {
        nat_decimal(n / 10).push(digit_char((n % 10) as int))
    }
}

/// Decimal numeral of an integer: a `-` sign for negative values, then its magnitude.
pub open spec fn int_decimal(i: int) -> Seq<char> {
    if i < 0 {
        seq!['-'] + nat_decimal((-i) as nat)
    } else {
        nat_decimal(i as nat)
    }
}

/// Lowercase hexadecimal digit for `d` (for `0 <= d < 16`).
pub open spec fn hex_char(d: int) -> char {
    if d < 10 { (48 + d) as char } else { (87 + d) as char }
}

/// Four lowercase hexadecimal digits of `v` (for `v < 0x10000`).
pub open spec fn hex4(v: int) -> Seq<char> {
    seq![hex_char((v / 4096) % 16), hex_char((v / 256) % 16), hex_char((v / 16) % 16), hex_char(v % 16)]
}

/// Appends one character. Wraps `String::push`, which appends `c` at the end of the string.
#[verifier::external_body]
pub(crate) fn push_char(s: &mut String, c: char)
    ensures
        final(s)@ == old(s)@.push(c),
{
    s.push(c);
}

/// Appends a string slice.
pub fn push_str(s: &mut String, t: &str)
    ensures
        final(s)@ == old(s)@ + t@,
{
    s.append(t);
}

/// Appends a string.
pub fn push_string(s: &mut String, t: &String)
    ensures
        final(s)@ == old(s)@ + t@,
{
    s.append(t.as_str());
}

/// A new string holding `t`.
pub fn string_of(t: &str) -> (r: String)
    ensures
        r@ == t@,
{
    String::from_str(t)
}

/// The ASCII digit for `d`.
pub fn digit(d: u8) -> (c: char)
    requires
        d < 10,
    ensures
        c == digit_char(d as int),
{
    (48u8 + d) as char
}

/// Appends the decimal numeral of `n`.
pub fn push_u64(out: &mut String, n: u64)
    ensures
        final(out)@ == old(out)@ + nat_decimal(n as nat),
    decreases n,
{
    if n >= 10 {
        push_u64(out, n / 10);
    }
    push_char(out, digit((n % 10) as u8));
    proof {
        if n >= 10 {
            assert(nat_decimal(n as nat) == nat_decimal((n / 10) as nat).push(digit_char((n % 10) as int)));
        }
    }
}

/// Appends the decimal numeral of `n`.
pub fn push_usize(out: &mut String, n: usize)
    ensures
        final(out)@ == old(out)@ + nat_decimal(n as nat),
{
    push_u64(out, n as u64);
}

/// Appends the decimal numeral of `n`, with a leading `-` when negative.
pub fn push_i64(out: &mut String, n: i64)
    ensures
        final(out)@ == old(out)@ + int_decimal(n as int),
{
    if n < 0 {
        push_char(out, '-');
        let m: u64 = (0i128 - (n as i128)) as u64;
        push_u64(out, m);
    } else {
        push_u64(out, n as u64);
    }
}

/// Appends four lowercase hexadecimal digits of `v`.
pub fn push_hex4(out: &mut String, v: u32)
    requires
        v < 0x10000,
    ensures
        final(out)@ == old(out)@ + hex4(v as int),
{
    let ds: [u32; 4] = [(v / 4096) % 16, (v / 256) % 16, (v / 16) % 16, v % 16];
    let mut k: usize = 0;
    let ghost start = out@;
    while k < 4
        invariant
            k <= 4,
            ds@ == seq![(v / 4096) % 16, (v / 256) % 16, (v / 16) % 16, v % 16],
            out@ == start + hex4(v as int).take(k as int),
        decreases 4 - k,
    {
        let d = ds[k];
        let c = if d < 10 { (48u8 + d as u8) as char } else { (87u8 + d as u8) as char };
        push_char(out, c);
        k = k + 1;
        assert(hex4(v as int).take(k as int) == hex4(v as int).take(k - 1).push(c));
    }
    assert(hex4(v as int).take(4) == hex4(v as int));
}

/// The characters of a string slice.
pub fn chars_of(s: &str) -> (v: Vec<char>)
    ensures
        v@ == s@,
{
    let mut v: Vec<char> = Vec::new();
    for c in it: s.chars()
        invariant
            v@ == it.seq().take(it.index() as int),
            it.seq() == s@,
    {
        v.push(c);
    }
    v
}

/// A string made of the characters `cs[lo..hi]`.
pub fn string_from_chars(cs: &Vec<char>, lo: usize, hi: usize) -> (r: String)
    requires
        lo <= hi <= cs@.len(),
    ensures
        r@ == cs@.subrange(lo as int, hi as int),
{
    let mut r = String::new();
    let mut k = lo;
    while k < hi
        invariant
            lo <= k <= hi <= cs@.len(),
            r@ == cs@.subrange(lo as int, k as int),
        decreases hi - k,
    {
        push_char(&mut r, cs[k]);
        k = k + 1;
        assert(cs@.subrange(lo as int, k as int) == cs@.subrange(lo as int, k - 1).push(cs@[k - 1]));
    }
    r
}


/// Number of bytes in the UTF-8 encoding of `cs`.
pub open spec fn utf8_len(cs: Seq<char>) -> nat {
    encode_utf8(cs).len()
}

/// Bytes that UTF-8 spends on one character.
pub open spec fn char_width(c: char) -> nat {
    if (c as u32) < 0x80 {
        1
    } else if (c as u32) < 0x800 {
        2
    } else if (c as u32) < 0x10000 {
        3
    } else {
        4
    }
}

/// The encoding of a concatenation is the concatenation of the encodings.
pub proof fn lemma_encode_utf8_concat(a: Seq<char>, b: Seq<char>)
    ensures
        encode_utf8(a + b) == encode_utf8(a) + encode_utf8(b),
    decreases a.len(),
{
    if a.len() == 0 {
        assert(a + b =~= b);
        assert(encode_utf8(a) =~= Seq::<u8>::empty());
        assert(encode_utf8(a + b) =~= encode_utf8(a) + encode_utf8(b));
    } else {
        lemma_encode_utf8_concat(a.drop_first(), b);
        assert((a + b).drop_first() =~= a.drop_first() + b);
        assert((a + b)[0] == a[0]);
        assert(encode_utf8(a + b) =~= encode_utf8(a) + encode_utf8(b));
    }
}

/// One character takes `char_width` bytes, and at least one.
pub proof fn lemma_char_width(c: char)
    ensures
        encode_scalar(c as u32).len() == char_width(c),
        1 <= char_width(c) <= 4,
{
    vstd::utf8::char_is_scalar(c);
}

/// The encoding has at least one byte per character, and a part of a text has no more
/// bytes than the whole.
pub proof fn lemma_utf8_len_bounds(cs: Seq<char>, lo: int, hi: int)
    requires
        0 <= lo <= hi <= cs.len(),
    ensures
        cs.subrange(lo, hi).len() <= utf8_len(cs.subrange(lo, hi)) <= utf8_len(cs),
        utf8_len(cs.subrange(0, lo)) + utf8_len(cs.subrange(lo, hi)) + utf8_len(cs.subrange(hi, cs.len() as int)) == utf8_len(cs),
{
    let a = cs.subrange(0, lo);
    let m = cs.subrange(lo, hi);
    let z = cs.subrange(hi, cs.len() as int);
    assert(cs =~= a + (m + z));
    lemma_encode_utf8_concat(m, z);
    lemma_encode_utf8_concat(a, m + z);
    lemma_utf8_len_at_least(m);
}

/// At least one byte per character.
pub proof fn lemma_utf8_len_at_least(cs: Seq<char>)
    ensures
        cs.len() <= utf8_len(cs),
    decreases cs.len(),
{
    if cs.len() > 0 {
        lemma_char_width(cs[0]);
        lemma_utf8_len_at_least(cs.drop_first());
    }
}

/// Bytes of the UTF-8 encoding of one character.
fn char_width_of(c: char) -> (n: usize)
    ensures
        n == char_width(c),
{
    let v = c as u32;
    if v < 0x80 {
        1
    } else if v < 0x800 {
        2
    } else if v < 0x10000 {
        3
    } else {
        4
    }
}

/// Number of bytes in the UTF-8 encoding of `cs[lo..hi]`.
pub fn utf8_len_of(cs: &Vec<char>, lo: usize, hi: usize) -> (n: usize)
    requires
        lo <= hi <= cs@.len(),
        utf8_len(cs@) <= usize::MAX,
    ensures
        n == utf8_len(cs@.subrange(lo as int, hi as int)),
{
    let mut n: usize = 0;
    let mut k: usize = lo;
    assert(cs@.subrange(lo as int, lo as int) =~= Seq::<char>::empty());
    while k < hi
        invariant
            lo <= k <= hi <= cs@.len(),
            utf8_len(cs@) <= usize::MAX,
            n == utf8_len(cs@.subrange(lo as int, k as int)),
        decreases hi - k,
    {
        let w = char_width_of(cs[k]);
        proof {
            let c = cs@[k as int];
            assert(cs@.subrange(lo as int, k + 1) =~= cs@.subrange(lo as int, k as int) + seq![c]);
            lemma_encode_utf8_concat(cs@.subrange(lo as int, k as int), seq![c]);
            lemma_char_width(c);
            assert(seq![c].drop_first() =~= Seq::<char>::empty());
            assert(encode_utf8(Seq::<char>::empty()) =~= Seq::<u8>::empty());
            assert(encode_utf8(seq![c]) =~= encode_scalar(c as u32) + encode_utf8(seq![c].drop_first()));
            lemma_utf8_len_bounds(cs@, lo as int, k + 1);
        }
        n = n + w;
        k = k + 1;
    }
    n
}

} // verus!
