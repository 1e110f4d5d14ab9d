//! Bracket-array parsing for `lir run --input`, typed by the program's `input:*` source.

use vstd::prelude::*;
use crate::ast::ElemTy;
use crate::interp::{first_mismatch_from, fits_i32, fits_i64, val_has_ty, Val};
use crate::lex::digits_value;
use crate::text::{chars_of, push_char, push_str, string_of};

verus! {

/// Characters with the Unicode `White_Space` property (what `str::trim` removes).
pub open spec fn is_ws(c: char) -> bool {
    ||| ('\u{9}' <= c && c <= '\u{d}')
    ||| c == ' '
    ||| c == '\u{85}'
    ||| c == '\u{a0}'
    ||| c == '\u{1680}'
    ||| ('\u{2000}' <= c && c <= '\u{200a}')
    ||| c == '\u{2028}'
    ||| c == '\u{2029}'
    ||| c == '\u{202f}'
    ||| c == '\u{205f}'
    ||| c == '\u{3000}'
}

/// `s` without leading white space.
pub open spec fn trim_start_ws(s: Seq<char>) -> Seq<char>
    decreases s.len(),
{
    if s.len() > 0 && is_ws(s[0]) { trim_start_ws(s.drop_first()) } else { s }
}

/// `s` without trailing white space.
pub open spec fn trim_end_ws(s: Seq<char>) -> Seq<char>
    decreases s.len(),
{
    if s.len() > 0 && is_ws(s.last()) { trim_end_ws(s.drop_last()) } else { s }
}

/// `s` without leading and trailing white space.
pub open spec fn trim_ws(s: Seq<char>) -> Seq<char> {
    trim_start_ws(trim_end_ws(s))
}

/// `s` without its leading copies of `c`.
pub open spec fn trim_start_char(s: Seq<char>, c: char) -> Seq<char>
    decreases s.len(),
{
    if s.len() > 0 && s[0] == c { trim_start_char(s.drop_first(), c) } else { s }
}

/// `s` without its trailing copies of `c`.
pub open spec fn trim_end_char(s: Seq<char>, c: char) -> Seq<char>
    decreases s.len(),
{
    if s.len() > 0 && s.last() == c { trim_end_char(s.drop_last(), c) } else { s }
}

/// Index of the first `,` at or after `i`, or the length.
pub open spec fn comma_from(s: Seq<char>, i: int) -> int
    decreases s.len() - i,
{
    if 0 <= i < s.len() && s[i] != ',' { comma_from(s, i + 1) } else { i }
}

/// Whether `c` is an ASCII digit.
pub open spec fn is_ascii_digit(c: char) -> bool {
    '0' <= c && c <= '9'
}

/// Whether every character of `ds` is an ASCII digit.
pub open spec fn all_digits(ds: Seq<char>) -> bool {
    forall|k: int| 0 <= k < ds.len() ==> is_ascii_digit(#[trigger] ds[k])
}

/// Whether `p` starts with a sign.
pub open spec fn has_sign(p: Seq<char>) -> bool {
    p.len() > 0 && (p[0] == '-' || p[0] == '+')
}

/// The value of a decimal `i64` numeral: an optional `+` or `-`, then one or more ASCII
/// digits, with a value in range; `None` for anything else.
pub open spec fn i64_text_value(p: Seq<char>) -> Option<i64> {
    let neg = p.len() > 0 && p[0] == '-';
    let ds = if has_sign(p) { p.drop_first() } else { p };
    if ds.len() == 0 || !all_digits(ds) {
        None
    } else {
        let m = digits_value(ds, 0, ds.len() as int) as int;
        let v = if neg { -m } else { m };
        if fits_i64(v) { Some(v as i64) } else { None }
    }
}

/// One trimmed element `p` read as a value of type `ty`, or the message that rejects it.
pub open spec fn elem_spec(p: Seq<char>, ty: ElemTy) -> Result<Val, Seq<char>> {
    let is_lit_bool = p == "true"@ || p == "false"@;
    match ty {
        ElemTy::Bool => if p == "true"@ {
            Ok(Val::Bool(true))
        } else if p == "false"@ {
            Ok(Val::Bool(false))
        } else {
            Err("input:bool expects true or false in the array, got `"@ + p + "`"@)
        },
        ElemTy::I64 => if is_lit_bool {
            Err("input:i64 expects numeric elements, got `"@ + p + "`"@)
        } else {
            match i64_text_value(p) {
                None => Err("invalid i64 array element `"@ + p + "`"@),
                Some(n) => Ok(Val::I64(n)),
            }
        },
        ElemTy::I32 => if is_lit_bool {
            Err("input:i32 expects integer elements, got `"@ + p + "`"@)
        } else {
            match i64_text_value(p) {
                None => Err("invalid integer array element `"@ + p + "`"@),
                Some(n) => if !fits_i32(n as int) {
                    Err("value `"@ + p + "` does not fit i32 (use input:i64 for larger values)"@)
                } else {
                    Ok(Val::I32(n as i32))
                },
            }
        },
    }
}

/// The comma-separated elements of `s` from position `i` on, each trimmed and read as `ty`;
/// the first rejected element gives the message.
pub open spec fn elems_from(s: Seq<char>, i: int, ty: ElemTy) -> Result<Seq<Val>, Seq<char>>
    decreases s.len() - i,
{
    let j = comma_from(s, i);
    match elem_spec(trim_ws(s.subrange(i, j)), ty) {
        Err(m) => Err(m),
        Ok(v) => if 0 <= i && j < s.len() && i <= j {
            match elems_from(s, j + 1, ty) {
                Err(m) => Err(m),
                Ok(rest) => Ok(seq![v] + rest),
            }
        } else {
            Ok(seq![v])
        },
    }
}

/// What `parse_input_array` gives for the text `s`.
pub open spec fn input_array_spec(s: Seq<char>, ty: ElemTy) -> Result<Seq<Val>, Seq<char>> {
    let t = trim_ws(s);
    if !(t.len() > 0 && t[0] == '[' && t.last() == ']') {
        Err("input must be a bracketed array, e.g. '[1, 2]'"@)
    } else {
        let inner = trim_end_char(trim_start_char(t, '['), ']');
        if trim_ws(inner).len() == 0 {
            Ok(Seq::empty())
        } else {
            elems_from(inner, 0, ty)
        }
    }
}

proof fn lemma_comma_from(s: Seq<char>, i: int)
    requires
        0 <= i <= s.len(),
    ensures
        i <= comma_from(s, i) <= s.len(),
        comma_from(s, i) < s.len() ==> s[comma_from(s, i)] == ',',
    decreases s.len() - i,
{
    if i < s.len() && s[i] != ',' {
        lemma_comma_from(s, i + 1);
    }
}

/// Every accepted element has the type that was asked for.
proof fn lemma_elem_has_ty(p: Seq<char>, ty: ElemTy)
    ensures
        elem_spec(p, ty) matches Ok(v) ==> val_has_ty(v, ty),
{
}

/// Every value of a successful parse has type `ty`, so the interpreter accepts the array
/// as input of an `input:ty` program.
pub proof fn lemma_input_array_typed(s: Seq<char>, ty: ElemTy)
    ensures
        input_array_spec(s, ty) matches Ok(vals) ==> first_mismatch_from(ty, vals, 0) is None,
{
    let t = trim_ws(s);
    let inner = trim_end_char(trim_start_char(t, '['), ']');
    if t.len() > 0 && t[0] == '[' && t.last() == ']' && trim_ws(inner).len() != 0 {
        lemma_elems_typed(inner, 0, ty);
        if let Ok(vals) = elems_from(inner, 0, ty) {
            lemma_all_typed_no_mismatch(vals, ty, 0);
        }
    }
}

proof fn lemma_elems_typed(s: Seq<char>, i: int, ty: ElemTy)
    ensures
        elems_from(s, i, ty) matches Ok(vals) ==> forall|k: int| 0 <= k < vals.len() ==> val_has_ty(#[trigger] vals[k], ty),
    decreases s.len() - i,
{
    let j = comma_from(s, i);
    lemma_elem_has_ty(trim_ws(s.subrange(i, j)), ty);
    if let Ok(v) = elem_spec(trim_ws(s.subrange(i, j)), ty) {
        if 0 <= i && j < s.len() && i <= j {
            lemma_elems_typed(s, j + 1, ty);
            if let Ok(rest) = elems_from(s, j + 1, ty) {
                let vals = seq![v] + rest;
                assert forall|k: int| 0 <= k < vals.len() implies val_has_ty(#[trigger] vals[k], ty) by {
                    if k > 0 {
                        assert(vals[k] == rest[k - 1]);
                    }
                }
            }
        }
    }
}

proof fn lemma_all_typed_no_mismatch(vals: Seq<Val>, ty: ElemTy, i: int)
    requires
        0 <= i,
        forall|k: int| 0 <= k < vals.len() ==> val_has_ty(#[trigger] vals[k], ty),
    ensures
        first_mismatch_from(ty, vals, i) is None,
    decreases vals.len() - i,
{
    if i < vals.len() {
        assert(val_has_ty(vals[i], ty));
        lemma_all_typed_no_mismatch(vals, ty, i + 1);
    }
}

/// Whether `c` has the Unicode `White_Space` property.
pub fn is_ws_char(c: char) -> (b: bool)
    ensures
        b == is_ws(c),
{
    ('\u{9}' <= c && c <= '\u{d}') || c == ' ' || c == '\u{85}' || c == '\u{a0}' || c == '\u{1680}'
        || ('\u{2000}' <= c && c <= '\u{200a}') || c == '\u{2028}' || c == '\u{2029}' || c == '\u{202f}'
        || c == '\u{205f}' || c == '\u{3000}'
}

/// Bounds of `trim_ws(cs[lo..hi])` within `cs`.
fn trim_bounds(cs: &Vec<char>, lo: usize, hi: usize) -> (r: (usize, usize))
    requires
        lo <= hi <= cs@.len(),
    ensures
        lo <= r.0 <= r.1 <= hi,
        trim_ws(cs@.subrange(lo as int, hi as int)) == cs@.subrange(r.0 as int, r.1 as int),
{
    let mut b = hi;
    while b > lo && is_ws_char(cs[b - 1])
        invariant
            lo <= b <= hi <= cs@.len(),
            trim_end_ws(cs@.subrange(lo as int, hi as int)) == trim_end_ws(cs@.subrange(lo as int, b as int)),
        decreases b,
    {
        assert(cs@.subrange(lo as int, b as int).drop_last() =~= cs@.subrange(lo as int, b - 1));
        b = b - 1;
    }
    let mut a = lo;
    while a < b && is_ws_char(cs[a])
        invariant
            lo <= a <= b <= hi <= cs@.len(),
            trim_end_ws(cs@.subrange(lo as int, b as int)) == cs@.subrange(lo as int, b as int),
            trim_ws(cs@.subrange(lo as int, hi as int)) == trim_start_ws(cs@.subrange(a as int, b as int)),
        decreases b - a,
    {
        assert(cs@.subrange(a as int, b as int).drop_first() =~= cs@.subrange(a + 1, b as int));
        a = a + 1;
    }
    (a, b)
}

/// A string holding `pre`, then `cs[lo..hi]`, then `post`.
fn quoted(pre: &str, cs: &Vec<char>, lo: usize, hi: usize, post: &str) -> (m: String)
    requires
        lo <= hi <= cs@.len(),
    ensures
        m@ == pre@ + cs@.subrange(lo as int, hi as int) + post@,
{
    let mut m = string_of(pre);
    let mut k = lo;
    while k < hi
        invariant
            lo <= k <= hi <= cs@.len(),
            m@ == pre@ + cs@.subrange(lo as int, k as int),
        decreases hi - k,
    {
        push_char(&mut m, cs[k]);
        assert(cs@.subrange(lo as int, k + 1) == cs@.subrange(lo as int, k as int).push(cs@[k as int]));
        k = k + 1;
    }
    push_str(&mut m, post);
    m
}

/// Whether `cs[lo..hi]` spells `lit`.
fn span_is(cs: &Vec<char>, lo: usize, hi: usize, lit: &str) -> (b: bool)
    requires
        lo <= hi <= cs@.len(),
    ensures
        b == (cs@.subrange(lo as int, hi as int) == lit@),
{
    let w = chars_of(lit);
    if w.len() != hi - lo {
        return false;
    }
    let mut k: usize = 0;
    while k < w.len()
        invariant
            w@ == lit@,
            w@.len() == hi - lo,
            lo <= hi <= cs@.len(),
            k <= w@.len(),
            forall|m: int| 0 <= m < k ==> cs@[lo + m] == w@[m],
        decreases w@.len() - k,
    {
        if cs[lo + k] != w[k] {
            assert(cs@.subrange(lo as int, hi as int)[k as int] != lit@[k as int]);
            return false;
        }
        k = k + 1;
    }
    assert(cs@.subrange(lo as int, hi as int) =~= lit@);
    true
}

/// The `i64` value of the numeral `cs[lo..hi]`, if it is one.
#[verifier::loop_isolation(false)]
fn parse_i64_chars(cs: &Vec<char>, lo: usize, hi: usize) -> (r: Option<i64>)
    requires
        lo <= hi <= cs@.len(),
    ensures
        r == i64_text_value(cs@.subrange(lo as int, hi as int)),
{
    let ghost p = cs@.subrange(lo as int, hi as int);
    let neg = lo < hi && cs[lo] == '-';
    let signed = lo < hi && (cs[lo] == '-' || cs[lo] == '+');
    let start = if signed { lo + 1 } else { lo };
    let ghost ds = if signed { p.drop_first() } else { p };
    assert(lo < hi ==> p[0] == cs@[lo as int]);
    assert(signed == (p.len() > 0 && (p[0] == '-' || p[0] == '+')));
    assert(neg == (p.len() > 0 && p[0] == '-'));
    assert(ds =~= cs@.subrange(start as int, hi as int));
    if start >= hi {
        return None;
    }
    let mut k = start;
    let mut v: i128 = 0;
    let mut big = false;
    let bound: i128 = 0x8000_0000_0000_0000;
    while k < hi
        invariant
            start <= k <= hi <= cs@.len(),
            ds =~= cs@.subrange(start as int, hi as int),
            bound == 0x8000_0000_0000_0000,
            forall|m: int| start <= m < k ==> is_ascii_digit(#[trigger] cs@[m]),
            !big ==> 0 <= v <= bound && v == digits_value(ds, 0, k - start),
            big ==> digits_value(ds, 0, k - start) > bound,
        decreases hi - k,
    {
        let c = cs[k];
        if !('0' <= c && c <= '9') {
            assert(ds[k - start] == c);
            assert(!is_ascii_digit(ds[k - start]));
            assert(!all_digits(ds));
            return None;
        }
        let d = (c as u32 - 48) as i128;
        assert(ds[k - start] == c);
        assert(digits_value(ds, 0, k + 1 - start) == 10 * digits_value(ds, 0, k - start) + d);
        if !big {
            let nv = v * 10 + d;
            if nv > bound {
                big = true;
            } else {
                v = nv;
            }
        }
        k = k + 1;
    }
    assert(all_digits(ds)) by {
        assert forall|m: int| 0 <= m < ds.len() implies is_ascii_digit(#[trigger] ds[m]) by {
            assert(ds[m] == cs@[start + m]);
        }
    }
    assert(k - start == ds.len());
    if big {
        return None;
    }
    if neg {
        Some((-v) as i64)
    } else if v == bound {
        None
    } else {
        Some(v as i64)
    }
}

/// Parses `[...]` elements to values of type `ty` (`input:i32` / `input:i64` / `input:bool`).
pub fn parse_input_array(s: &str, ty: ElemTy) -> (r: Result<Vec<Val>, String>)
    ensures
        match (r, input_array_spec(s@, ty)) {
            (Ok(v), Ok(w)) => v@ == w,
            (Err(m), Err(x)) => m@ == x,
            _ => false,
        },
{
    let cs = chars_of(s);
    let n = cs.len();
    assert(cs@ =~= cs@.subrange(0, n as int));
    let (a, b) = trim_bounds(&cs, 0, n);
    if !(a < b && cs[a] == '[' && cs[b - 1] == ']') {
        return Err(string_of("input must be a bracketed array, e.g. '[1, 2]'"));
    }
    let ghost t = cs@.subrange(a as int, b as int);
    let mut a2 = a;
    while a2 < b && cs[a2] == '['
        invariant
            a <= a2 <= b <= cs@.len(),
            trim_start_char(t, '[') == trim_start_char(cs@.subrange(a2 as int, b as int), '['),
        decreases b - a2,
    {
        assert(cs@.subrange(a2 as int, b as int).drop_first() =~= cs@.subrange(a2 + 1, b as int));
        a2 = a2 + 1;
    }
    assert(trim_start_char(t, '[') == cs@.subrange(a2 as int, b as int));
    let mut b2 = b;
    while b2 > a2 && cs[b2 - 1] == ']'
        invariant
            a2 <= b2 <= b <= cs@.len(),
            trim_end_char(trim_start_char(t, '['), ']') == trim_end_char(cs@.subrange(a2 as int, b2 as int), ']'),
        decreases b2,
    {
        assert(cs@.subrange(a2 as int, b2 as int).drop_last() =~= cs@.subrange(a2 as int, b2 - 1));
        b2 = b2 - 1;
    }
    let ghost inner = cs@.subrange(a2 as int, b2 as int);
    assert(trim_end_char(trim_start_char(t, '['), ']') == inner);
    let (ia, ib) = trim_bounds(&cs, a2, b2);
    if ia == ib {
        return Ok(Vec::new());
    }
    let mut out: Vec<Val> = Vec::new();
    let mut i = a2;
    proof {
        assert(trim_ws(s@) == t);
        assert(trim_ws(inner).len() != 0) by {
            assert(inner =~= cs@.subrange(a2 as int, b2 as int));
        }
        match elems_from(inner, 0, ty) {
            Ok(w) => assert(out@ + w =~= w),
            Err(_) => {},
        }
        assert(i - a2 == 0);
    }
    loop
        invariant
            a2 <= i <= b2 <= cs@.len(),
            inner == cs@.subrange(a2 as int, b2 as int),
            input_array_spec(s@, ty) == prepend_vals(out@, elems_from(inner, i - a2, ty)),
        decreases b2 - i,
    {
        let mut j = i;
        while j < b2 && cs[j] != ','
            invariant
                a2 <= i <= j <= b2 <= cs@.len(),
                inner == cs@.subrange(a2 as int, b2 as int),
                comma_from(inner, i - a2) == comma_from(inner, j - a2),
            decreases b2 - j,
        {
            assert(inner[j - a2] == cs@[j as int]);
            j = j + 1;
        }
        let ghost jj = comma_from(inner, i - a2);
        proof {
            lemma_comma_from(inner, i - a2);
        }
        assert(jj == j - a2);
        assert(inner.subrange(i - a2, j - a2) =~= cs@.subrange(i as int, j as int));
        let (pa, pb) = trim_bounds(&cs, i, j);
        let v = match elem_value(&cs, pa, pb, ty) {
            Ok(v) => v,
            Err(m) => {
                return Err(m);
            },
        };
        let ghost pre = out@;
        out.push(v);
        if j >= b2 {
            assert(out@ =~= pre + seq![v]);
            return Ok(out);
        }
        proof {
            match elems_from(inner, j + 1 - a2, ty) {
                Ok(rest) => {
                    assert(pre + (seq![v] + rest) =~= out@ + rest);
                },
                Err(_) => {},
            }
        }
        i = j + 1;
    }
}

/// `pre` in front of the values of a successful result.
pub open spec fn prepend_vals(pre: Seq<Val>, r: Result<Seq<Val>, Seq<char>>) -> Result<Seq<Val>, Seq<char>> {
    match r {
        Ok(s) => Ok(pre + s),
        Err(m) => Err(m),
    }
}

/// The trimmed element `cs[lo..hi]` read as a value of type `ty`.
fn elem_value(cs: &Vec<char>, lo: usize, hi: usize, ty: ElemTy) -> (r: Result<Val, String>)
    requires
        lo <= hi <= cs@.len(),
    ensures
        match (r, elem_spec(cs@.subrange(lo as int, hi as int), ty)) {
            (Ok(v), Ok(w)) => v == w,
            (Err(m), Err(x)) => m@ == x,
            _ => false,
        },
{
    let is_true = span_is(cs, lo, hi, "true");
    let is_false = span_is(cs, lo, hi, "false");
    match ty {
        ElemTy::Bool => {
            if is_true {
                Ok(Val::Bool(true))
            } else if is_false {
                Ok(Val::Bool(false))
            } else {
                Err(quoted("input:bool expects true or false in the array, got `", cs, lo, hi, "`"))
            }
        },
        ElemTy::I64 => {
            if is_true || is_false {
                return Err(quoted("input:i64 expects numeric elements, got `", cs, lo, hi, "`"));
            }
            match parse_i64_chars(cs, lo, hi) {
                None => Err(quoted("invalid i64 array element `", cs, lo, hi, "`")),
                Some(n) => Ok(Val::I64(n)),
            }
        },
        ElemTy::I32 => {
            if is_true || is_false {
                return Err(quoted("input:i32 expects integer elements, got `", cs, lo, hi, "`"));
            }
            match parse_i64_chars(cs, lo, hi) {
                None => Err(quoted("invalid integer array element `", cs, lo, hi, "`")),
                Some(n) => {
                    if n < -2147483648 || n > 2147483647 {
                        Err(quoted("value `", cs, lo, hi, "` does not fit i32 (use input:i64 for larger values)"))
                    } else {
                        Ok(Val::I32(n as i32))
                    }
                },
            }
        },
    }
}

} // verus!
