//! Lexer for LYTR 0.1: works on the UTF-8 bytes of the body; positions are byte offsets
//! shifted by the body's offset in the file.

use vstd::prelude::*;
use vstd::string::StringSliceAdditionalSpecFns;
use crate::error::Span;
use crate::lytr::error::{lytr_syntax, LytrError, LytrErrorView};
use crate::text::{push_char, push_str, string_of};

verus! {

/// Kind of a LYTR token.
#[derive(Clone, Copy, Debug, PartialEq, Eq, Structural)]
pub enum TokenKind {
    Fn,
    Main,
    Let,
    If,
    Else,
    Return,
    True,
    False,
    Bool,
    I32,
    Result,
    KwOk,
    KwErr,
    Match,
    LParen,
    RParen,
    LBrace,
    RBrace,
    Arrow,
    Semi,
    Comma,
    Colon,
    FatArrow,
    Lt,
    Gt,
    Assign,
    EqEq,
    Ne,
    Le,
    Ge,
    Plus,
    Minus,
    Star,
    Slash,
    Percent,
    /// A name; its text is the source under the span.
    Ident,
    Int(i32),
    Eof,
}

/// A token with its span.
#[derive(Clone, Copy, Debug, PartialEq, Eq, Structural)]
pub struct Token {
    pub kind: TokenKind,
    pub span: Span,
}

/// The ASCII bytes of a text made of ASCII characters.
pub open spec fn ascii(s: Seq<char>) -> Seq<u8> {
    s.map_values(|c: char| c as u8)
}

/// Space, tab, line feed or carriage return.
pub open spec fn is_space_byte(b: u8) -> bool {
    b == 32 || b == 9 || b == 10 || b == 13
}

/// An ASCII letter.
pub open spec fn is_alpha_byte(b: u8) -> bool {
    (65 <= b && b <= 90) || (97 <= b && b <= 122)
}

/// An ASCII digit.
pub open spec fn is_digit_byte(b: u8) -> bool {
    48 <= b && b <= 57
}

/// A byte that may continue a word: letter, digit or `_`.
pub open spec fn is_word_byte(b: u8) -> bool {
    is_alpha_byte(b) || is_digit_byte(b) || b == 95
}

/// End of a run of bytes satisfying `word` (or digits) from `i`.
pub open spec fn word_end(bs: Seq<u8>, i: int, digits_only: bool) -> int
    decreases bs.len() - i,
{
    if 0 <= i < bs.len() && (if digits_only { is_digit_byte(bs[i]) } else { is_word_byte(bs[i]) }) {
        word_end(bs, i + 1, digits_only)
    } else {
        i
    }
}

/// End of a `//` comment whose text starts at `i`: the next line feed, or the end.
pub open spec fn comment_end(bs: Seq<u8>, i: int) -> int
    decreases bs.len() - i,
{
    if 0 <= i < bs.len() && bs[i] != 10 { comment_end(bs, i + 1) } else { i }
}

/// Decimal value of the digits `bs[a..b]`.
pub open spec fn bytes_value(bs: Seq<u8>, a: int, b: int) -> nat
    decreases b - a,
{
    if b <= a { 0 } else { 10 * bytes_value(bs, a, b - 1) + ((bs[b - 1] as int) - 48) as nat }
}

/// The two-byte operator `a b`, if it is one.
pub open spec fn two_byte_op(a: u8, b: u8) -> Option<TokenKind> {
    if a == 45 && b == 62 {
        Some(TokenKind::Arrow)
    } else if a == 61 && b == 61 {
        Some(TokenKind::EqEq)
    } else if a == 33 && b == 61 {
        Some(TokenKind::Ne)
    } else if a == 60 && b == 61 {
        Some(TokenKind::Le)
    } else if a == 62 && b == 61 {
        Some(TokenKind::Ge)
    } else if a == 61 && b == 62 {
        Some(TokenKind::FatArrow)
    } else {
        None
    }
}

/// The one-byte punctuation `b`, if it is one (other than `=`).
pub open spec fn one_byte_op(b: u8) -> Option<TokenKind> {
    if b == 40 {
        Some(TokenKind::LParen)
    } else if b == 41 {
        Some(TokenKind::RParen)
    } else if b == 123 {
        Some(TokenKind::LBrace)
    } else if b == 125 {
        Some(TokenKind::RBrace)
    } else if b == 59 {
        Some(TokenKind::Semi)
    } else if b == 44 {
        Some(TokenKind::Comma)
    } else if b == 58 {
        Some(TokenKind::Colon)
    } else if b == 60 {
        Some(TokenKind::Lt)
    } else if b == 62 {
        Some(TokenKind::Gt)
    } else if b == 43 {
        Some(TokenKind::Plus)
    } else if b == 45 {
        Some(TokenKind::Minus)
    } else if b == 42 {
        Some(TokenKind::Star)
    } else if b == 47 {
        Some(TokenKind::Slash)
    } else if b == 37 {
        Some(TokenKind::Percent)
    } else {
        None
    }
}

/// The token kind of a word: a keyword, or a name.
pub open spec fn keyword_kind(w: Seq<u8>) -> TokenKind {
    if w == ascii("fn"@) {
        TokenKind::Fn
    } else if w == ascii("main"@) {
        TokenKind::Main
    } else if w == ascii("let"@) {
        TokenKind::Let
    } else if w == ascii("if"@) {
        TokenKind::If
    } else if w == ascii("else"@) {
        TokenKind::Else
    } else if w == ascii("return"@) {
        TokenKind::Return
    } else if w == ascii("true"@) {
        TokenKind::True
    } else if w == ascii("false"@) {
        TokenKind::False
    } else if w == ascii("bool"@) {
        TokenKind::Bool
    } else if w == ascii("i32"@) {
        TokenKind::I32
    } else if w == ascii("Result"@) {
        TokenKind::Result
    } else if w == ascii("Ok"@) {
        TokenKind::KwOk
    } else if w == ascii("Err"@) {
        TokenKind::KwErr
    } else if w == ascii("match"@) {
        TokenKind::Match
    } else {
        TokenKind::Ident
    }
}

/// A span of the body, moved by `base`.
pub open spec fn bspan(base: int, a: int, b: int) -> Span {
    Span { start: (base + a) as usize, end: (base + b) as usize }
}

/// `tok` in front of a successful result.
pub open spec fn prepend_tok(tok: Token, r: Result<Seq<Token>, LytrErrorView>) -> Result<Seq<Token>, LytrErrorView> {
    match r {
        Ok(s) => Ok(seq![tok] + s),
        Err(e) => Err(e),
    }
}

/// Tokens of `bs[i..]` (body bytes placed at `base`), ending with `Eof`, or the first error.
pub open spec fn lytr_lex_from(bs: Seq<u8>, i: int, base: int) -> Result<Seq<Token>, LytrErrorView>
    decreases bs.len() - i,
{
    if i < 0 || i >= bs.len() {
        Ok(seq![Token { kind: TokenKind::Eof, span: bspan(base, bs.len() as int, bs.len() as int) }])
    } else {
        let b = bs[i];
        if is_space_byte(b) {
            lytr_lex_from(bs, i + 1, base)
        } else if i + 1 < bs.len() && b == 47 && bs[i + 1] == 47 {
            let j = comment_end(bs, i + 2);
            if i < j <= bs.len() { lytr_lex_from(bs, j, base) } else { Ok(Seq::empty()) }
        } else if i + 1 < bs.len() && two_byte_op(b, bs[i + 1]) is Some {
            prepend_tok(Token { kind: two_byte_op(b, bs[i + 1])->0, span: bspan(base, i, i + 2) }, lytr_lex_from(bs, i + 2, base))
        } else if b == 61 {
            prepend_tok(Token { kind: TokenKind::Assign, span: bspan(base, i, i + 1) }, lytr_lex_from(bs, i + 1, base))
        } else if is_alpha_byte(b) || b == 95 {
            let j = word_end(bs, i + 1, false);
            if i < j <= bs.len() {
                prepend_tok(Token { kind: keyword_kind(bs.subrange(i, j)), span: bspan(base, i, j) }, lytr_lex_from(bs, j, base))
            } else {
                Ok(Seq::empty())
            }
        } else if is_digit_byte(b) {
            let j = word_end(bs, i + 1, true);
            let v = bytes_value(bs, i, j);
            if !(i < j <= bs.len()) {
                Ok(Seq::empty())
            } else if v > i32::MAX {
                Err(lytr_syntax("E_LYTR_INT"@, bspan(base, i, j), "invalid integer literal `"@ + bytes_as_chars(bs, i, j) + "`"@, "use a decimal i32 literal"@))
            } else {
                prepend_tok(Token { kind: TokenKind::Int(v as i32), span: bspan(base, i, j) }, lytr_lex_from(bs, j, base))
            }
        } else if one_byte_op(b) is Some {
            prepend_tok(Token { kind: one_byte_op(b)->0, span: bspan(base, i, i + 1) }, lytr_lex_from(bs, i + 1, base))
        } else {
            Err(lytr_syntax(
                "E_LYTR_LEX"@,
                bspan(base, i, i + 1),
                "unexpected character `"@.push(b as char) + "`"@,
                "LYTR 0.1 allows letters, digits, _, whitespace, // comments and ( ) { } ; , : < > = + - * / %"@,
            ))
        }
    }
}

pub(crate) proof fn lemma_word_end(bs: Seq<u8>, i: int, d: bool)
    requires
        0 <= i <= bs.len(),
    ensures
        i <= word_end(bs, i, d) <= bs.len(),
    decreases bs.len() - i,
{
    if i < bs.len() && (if d { is_digit_byte(bs[i]) } else { is_word_byte(bs[i]) }) {
        lemma_word_end(bs, i + 1, d);
    }
}

pub(crate) proof fn lemma_comment_end(bs: Seq<u8>, i: int)
    requires
        0 <= i <= bs.len(),
    ensures
        i <= comment_end(bs, i) <= bs.len(),
    decreases bs.len() - i,
{
    if i < bs.len() && bs[i] != 10 {
        lemma_comment_end(bs, i + 1);
    }
}

/// Whether `bs[lo..hi]` spells `lit` (ASCII).
pub(crate) fn bytes_are(bs: &[u8], lo: usize, hi: usize, lit: &str) -> (b: bool)
    requires
        lo <= hi <= bs@.len(),
    ensures
        b == (bs@.subrange(lo as int, hi as int) == ascii(lit@)),
{
    let w = crate::text::chars_of(lit);
    assert(ascii(lit@).len() == lit@.len());
    if w.len() != hi - lo {
        assert(bs@.subrange(lo as int, hi as int).len() != ascii(lit@).len());
        return false;
    }
    let mut k: usize = 0;
    while k < w.len()
        invariant
            w@ == lit@,
            w@.len() == hi - lo,
            lo <= hi <= bs@.len(),
            k <= w@.len(),
            forall|m: int| 0 <= m < k ==> bs@[lo + m] == (w@[m] as u8),
        decreases w@.len() - k,
    {
        if bs[lo + k] != (w[k] as u8) {
            assert(bs@.subrange(lo as int, hi as int)[k as int] != ascii(lit@)[k as int]);
            return false;
        }
        k = k + 1;
    }
    assert(bs@.subrange(lo as int, hi as int) =~= ascii(lit@));
    true
}

/// The token kind of the word `bs[lo..hi]`.
fn word_kind(bs: &[u8], lo: usize, hi: usize) -> (k: TokenKind)
    requires
        lo <= hi <= bs@.len(),
    ensures
        k == keyword_kind(bs@.subrange(lo as int, hi as int)),
{
    if bytes_are(bs, lo, hi, "fn") {
        TokenKind::Fn
    } else if bytes_are(bs, lo, hi, "main") {
        TokenKind::Main
    } else if bytes_are(bs, lo, hi, "let") {
        TokenKind::Let
    } else if bytes_are(bs, lo, hi, "if") {
        TokenKind::If
    } else if bytes_are(bs, lo, hi, "else") {
        TokenKind::Else
    } else if bytes_are(bs, lo, hi, "return") {
        TokenKind::Return
    } else if bytes_are(bs, lo, hi, "true") {
        TokenKind::True
    } else if bytes_are(bs, lo, hi, "false") {
        TokenKind::False
    } else if bytes_are(bs, lo, hi, "bool") {
        TokenKind::Bool
    } else if bytes_are(bs, lo, hi, "i32") {
        TokenKind::I32
    } else if bytes_are(bs, lo, hi, "Result") {
        TokenKind::Result
    } else if bytes_are(bs, lo, hi, "Ok") {
        TokenKind::KwOk
    } else if bytes_are(bs, lo, hi, "Err") {
        TokenKind::KwErr
    } else if bytes_are(bs, lo, hi, "match") {
        TokenKind::Match
    } else {
        TokenKind::Ident
    }
}

/// The two-byte operator `a b`, if it is one.
fn two_byte_kind(a: u8, b: u8) -> (r: Option<TokenKind>)
    ensures
        r == two_byte_op(a, b),
{
    if a == 45 && b == 62 {
        Some(TokenKind::Arrow)
    } else if a == 61 && b == 61 {
        Some(TokenKind::EqEq)
    } else if a == 33 && b == 61 {
        Some(TokenKind::Ne)
    } else if a == 60 && b == 61 {
        Some(TokenKind::Le)
    } else if a == 62 && b == 61 {
        Some(TokenKind::Ge)
    } else if a == 61 && b == 62 {
        Some(TokenKind::FatArrow)
    } else {
        None
    }
}

/// The one-byte punctuation `b`, if it is one.
fn one_byte_kind(b: u8) -> (r: Option<TokenKind>)
    ensures
        r == one_byte_op(b),
{
    if b == 40 {
        Some(TokenKind::LParen)
    } else if b == 41 {
        Some(TokenKind::RParen)
    } else if b == 123 {
        Some(TokenKind::LBrace)
    } else if b == 125 {
        Some(TokenKind::RBrace)
    } else if b == 59 {
        Some(TokenKind::Semi)
    } else if b == 44 {
        Some(TokenKind::Comma)
    } else if b == 58 {
        Some(TokenKind::Colon)
    } else if b == 60 {
        Some(TokenKind::Lt)
    } else if b == 62 {
        Some(TokenKind::Gt)
    } else if b == 43 {
        Some(TokenKind::Plus)
    } else if b == 45 {
        Some(TokenKind::Minus)
    } else if b == 42 {
        Some(TokenKind::Star)
    } else if b == 47 {
        Some(TokenKind::Slash)
    } else if b == 37 {
        Some(TokenKind::Percent)
    } else {
        None
    }
}

/// The bytes `bs[lo..hi]` read as characters, one character per byte.
pub open spec fn bytes_as_chars(bs: Seq<u8>, lo: int, hi: int) -> Seq<char> {
    bs.subrange(lo, hi).map_values(|b: u8| b as char)
}

/// `invalid integer literal `<digits>``.
fn int_literal_message(bs: &[u8], lo: usize, hi: usize) -> (m: String)
    requires
        lo <= hi <= bs@.len(),
    ensures
        m@ == "invalid integer literal `"@ + bytes_as_chars(bs@, lo as int, hi as int) + "`"@,
{
    let mut m = string_of("invalid integer literal `");
    let mut k = lo;
    while k < hi
        invariant
            lo <= k <= hi <= bs@.len(),
            m@ == "invalid integer literal `"@ + bytes_as_chars(bs@, lo as int, k as int),
        decreases hi - k,
    {
        push_char(&mut m, bs[k] as char);
        assert(bytes_as_chars(bs@, lo as int, k + 1) == bytes_as_chars(bs@, lo as int, k as int).push(bs@[k as int] as char));
        k = k + 1;
    }
    push_str(&mut m, "`");
    m
}

/// Value of the digits `bs[lo..hi]`, or `None` when it exceeds `i32::MAX`.
fn digits_i32(bs: &[u8], lo: usize, hi: usize) -> (r: Option<i32>)
    requires
        lo <= hi <= bs@.len(),
        forall|k: int| lo <= k < hi ==> is_digit_byte(#[trigger] bs@[k]),
    ensures
        match r {
            Some(v) => v as int == bytes_value(bs@, lo as int, hi as int),
            None => bytes_value(bs@, lo as int, hi as int) > i32::MAX,
        },
{
    let mut v: i64 = 0;
    let mut k = lo;
    while k < hi
        invariant
            lo <= k <= hi <= bs@.len(),
            forall|q: int| lo <= q < hi ==> is_digit_byte(#[trigger] bs@[q]),
            0 <= v <= i32::MAX,
            v == bytes_value(bs@, lo as int, k as int),
        decreases hi - k,
    {
        assert(is_digit_byte(bs@[k as int]));
        let d = (bs[k] - 48) as i64;
        let nv = v * 10 + d;
        if nv > 2147483647 {
            proof {
                lemma_bytes_value_grows(bs@, lo as int, k + 1, hi as int);
            }
            return None;
        }
        v = nv;
        k = k + 1;
    }
    Some(v as i32)
}

/// A value of digits only grows as digits are added.
proof fn lemma_bytes_value_grows(bs: Seq<u8>, a: int, b: int, c: int)
    requires
        a <= b <= c <= bs.len(),
        forall|k: int| a <= k < c ==> is_digit_byte(#[trigger] bs[k]),
    ensures
        bytes_value(bs, a, b) <= bytes_value(bs, a, c),
    decreases c - b,
{
    if b < c {
        lemma_bytes_value_grows(bs, a, b, c - 1);
        assert(is_digit_byte(bs[c - 1]));
    }
}

/// Tokens of a LYTR body whose first byte stands at offset `base` of the file.
pub fn tokenize(src: &str, base: usize) -> (r: Result<Vec<Token>, LytrError>)
    requires
        base + src.spec_bytes().len() <= usize::MAX,
    ensures
        match (r, lytr_lex_from(src.spec_bytes(), 0, base as int)) {
            (Ok(v), Ok(s)) => v@ == s,
            (Err(e), Err(x)) => e@ == x,
            _ => false,
        },
{
    lex_bytes(src.as_bytes(), 0, base)
}

/// Tokens of `bytes[from..]`, the byte at index `k` standing at offset `base + k`.
pub fn lex_bytes(bytes: &[u8], from: usize, base: usize) -> (r: Result<Vec<Token>, LytrError>)
    requires
        from <= bytes@.len(),
        base + bytes@.len() <= usize::MAX,
    ensures
        match (r, lytr_lex_from(bytes@, from as int, base as int)) {
            (Ok(v), Ok(s)) => v@ == s,
            (Err(e), Err(x)) => e@ == x,
            _ => false,
        },
{
    let n = bytes.len();
    let ghost bs = bytes@;
    let mut out: Vec<Token> = Vec::new();
    let mut i: usize = from;
    assert(lytr_lex_from(bs, from as int, base as int) == (match lytr_lex_from(bs, i as int, base as int) {
        Ok(s) => Ok(out@ + s),
        Err(e) => Err::<Seq<Token>, LytrErrorView>(e),
    })) by {
        match lytr_lex_from(bs, i as int, base as int) {
            Ok(s) => assert(out@ + s =~= s),
            Err(_) => {},
        }
    }
    while i < n
        invariant
            bs == bytes@,
            n == bs.len(),
            base + n <= usize::MAX,
            i <= n,
            lytr_lex_from(bs, from as int, base as int) == (match lytr_lex_from(bs, i as int, base as int) {
                Ok(s) => Ok(out@ + s),
                Err(e) => Err::<Seq<Token>, LytrErrorView>(e),
            }),
        decreases n - i,
    {
        let b = bytes[i];
        let ghost pre = out@;
        let ghost gi = i as int;
        if b == 32 || b == 9 || b == 10 || b == 13 {
            i = i + 1;
            continue;
        }
        if i + 1 < n && bytes[i] == 47 && bytes[i + 1] == 47 {
            i = i + 2;
            let ghost c0 = i as int;
            while i < n && bytes[i] != 10
                invariant
                    bs == bytes@,
                    n == bs.len(),
                    c0 <= i <= n,
                    comment_end(bs, c0) == comment_end(bs, i as int),
                decreases n - i,
            {
                i = i + 1;
            }
            proof {
                lemma_comment_end(bs, c0);
            }
            continue;
        }
        let start = base + i;
        if i + 1 < n {
            if let Some(kind) = two_byte_kind(b, bytes[i + 1]) {
                i = i + 2;
                let tok = Token { kind, span: Span::new(start, base + i) };
                out.push(tok);
                proof {
                    match lytr_lex_from(bs, i as int, base as int) {
                        Ok(s) => assert(pre + (seq![tok] + s) == out@ + s),
                        Err(_) => {},
                    }
                }
                continue;
            }
        }
        if b == 61 {
            i = i + 1;
            let tok = Token { kind: TokenKind::Assign, span: Span::new(start, base + i) };
            out.push(tok);
            proof {
                match lytr_lex_from(bs, i as int, base as int) {
                    Ok(s) => assert(pre + (seq![tok] + s) == out@ + s),
                    Err(_) => {},
                }
            }
            continue;
        }
        if (65 <= b && b <= 90) || (97 <= b && b <= 122) || b == 95 {
            let j = i;
            i = i + 1;
            while i < n && ((65 <= bytes[i] && bytes[i] <= 90) || (97 <= bytes[i] && bytes[i] <= 122) || (48 <= bytes[i] && bytes[i] <= 57) || bytes[i] == 95)
                invariant
                    bs == bytes@,
                    n == bs.len(),
                    j < i <= n,
                    word_end(bs, j + 1, false) == word_end(bs, i as int, false),
                decreases n - i,
            {
                i = i + 1;
            }
            let kind = word_kind(bytes, j, i);
            let tok = Token { kind, span: Span::new(start, base + i) };
            out.push(tok);
            proof {
                match lytr_lex_from(bs, i as int, base as int) {
                    Ok(s) => assert(pre + (seq![tok] + s) == out@ + s),
                    Err(_) => {},
                }
            }
            continue;
        }
        if 48 <= b && b <= 57 {
            let j = i;
            i = i + 1;
            while i < n && (48 <= bytes[i] && bytes[i] <= 57)
                invariant
                    bs == bytes@,
                    n == bs.len(),
                    j < i <= n,
                    word_end(bs, j + 1, true) == word_end(bs, i as int, true),
                    forall|k: int| j <= k < i ==> is_digit_byte(#[trigger] bs[k]),
                decreases n - i,
            {
                i = i + 1;
            }
            let span = Span::new(start, base + i);
            match digits_i32(bytes, j, i) {
                Some(v) => {
                    let tok = Token { kind: TokenKind::Int(v), span };
                    out.push(tok);
                    proof {
                        match lytr_lex_from(bs, i as int, base as int) {
                            Ok(s) => assert(pre + (seq![tok] + s) == out@ + s),
                            Err(_) => {},
                        }
                    }
                },
                None => {
                    return Err(LytrError::Syntax {
                        code: "E_LYTR_INT",
                        span,
                        message: int_literal_message(bytes, j, i),
                        fix_hint: string_of("use a decimal i32 literal"),
                    });
                },
            }
            continue;
        }
        i = i + 1;
        let span = Span::new(start, base + i);
        match one_byte_kind(b) {
            Some(kind) => {
                let tok = Token { kind, span };
                out.push(tok);
                proof {
                    match lytr_lex_from(bs, i as int, base as int) {
                        Ok(s) => assert(pre + (seq![tok] + s) == out@ + s),
                        Err(_) => {},
                    }
                }
            },
            None => {
                let mut message = string_of("unexpected character `");
                push_char(&mut message, b as char);
                push_str(&mut message, "`");
                return Err(LytrError::Syntax {
                    code: "E_LYTR_LEX",
                    span,
                    message,
                    fix_hint: string_of("LYTR 0.1 allows letters, digits, _, whitespace, // comments and ( ) { } ; , : < > = + - * / %"),
                });
            },
        }
    }
    let tok = Token { kind: TokenKind::Eof, span: Span::new(base + i, base + i) };
    let ghost pre = out@;
    out.push(tok);
    assert(out@ == pre + seq![tok]);
    Ok(out)
}

} // verus!
