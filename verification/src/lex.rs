//! Lexer for the body of an `lir/1` program (the text after the header line).
//!
//! Positions are counted in characters. Every character before a token or before the
//! position of an error is ASCII (any other character stops lexing with an error), so
//! these positions are also byte offsets.

use vstd::prelude::*;
use crate::error::{lir_prose, syntax_err, syntax_error, ErrorView, LirError, Span};
use crate::interp::fits_i64;
use crate::text::{chars_of, push_char, push_str, string_from_chars, string_of};

verus! {

/// A token of the `lir/1` body.
#[derive(Clone, Debug, PartialEq, Eq)]
pub enum Token {
    Ident(String),
    Int(i64),
    Pipe,
    LParen,
    RParen,
    Comma,
    Dot,
    Amp,
    Colon,
    Eof,
}

/// A token with its span.
#[derive(Clone, Debug)]
pub struct Lexeme {
    pub tok: Token,
    pub span: Span,
}

/// Mathematical view of a token: identifiers by their characters.
pub enum TokenView {
    Ident(Seq<char>),
    Int(i64),
    Pipe,
    LParen,
    RParen,
    Comma,
    Dot,
    Amp,
    Colon,
    Eof,
}

/// Mathematical view of a lexeme.
pub struct LexemeView {
    pub tok: TokenView,
    pub span: Span,
}

impl View for Token {
    type V = TokenView;

    open spec fn view(&self) -> TokenView {
        match self {
            Token::Ident(s) => TokenView::Ident(s@),
            Token::Int(v) => TokenView::Int(*v),
            Token::Pipe => TokenView::Pipe,
            Token::LParen => TokenView::LParen,
            Token::RParen => TokenView::RParen,
            Token::Comma => TokenView::Comma,
            Token::Dot => TokenView::Dot,
            Token::Amp => TokenView::Amp,
            Token::Colon => TokenView::Colon,
            Token::Eof => TokenView::Eof,
        }
    }
}

impl View for Lexeme {
    type V = LexemeView;

    open spec fn view(&self) -> LexemeView {
        LexemeView { tok: self.tok@, span: self.span }
    }
}

/// Views of a sequence of lexemes.
pub open spec fn lexemes_view(v: Seq<Lexeme>) -> Seq<LexemeView> {
    v.map_values(|l: Lexeme| l@)
}

pub open spec fn is_space(c: char) -> bool {
    c == ' ' || c == '\t' || c == '\r' || c == '\n'
}

pub open spec fn is_digit(c: char) -> bool {
    '0' <= c && c <= '9'
}

pub open spec fn is_ident_start(c: char) -> bool {
    ('a' <= c && c <= 'z') || ('A' <= c && c <= 'Z') || c == '_'
}

pub open spec fn is_ident_char(c: char) -> bool {
    is_ident_start(c) || is_digit(c)
}

/// Token of a one-character punctuation mark.
pub open spec fn punct_token(c: char) -> Option<TokenView> {
    if c == '|' {
        Some(TokenView::Pipe)
    } else if c == '(' {
        Some(TokenView::LParen)
    } else if c == ')' {
        Some(TokenView::RParen)
    } else if c == ',' {
        Some(TokenView::Comma)
    } else if c == '.' {
        Some(TokenView::Dot)
    } else if c == '&' {
        Some(TokenView::Amp)
    } else if c == ':' {
        Some(TokenView::Colon)
    } else {
        None
    }
}

/// End of the run of digits starting at `i`.
pub open spec fn digits_end(cs: Seq<char>, i: int) -> int
    decreases cs.len() - i,
{
    if 0 <= i < cs.len() && is_digit(cs[i]) { digits_end(cs, i + 1) } else { i }
}

/// End of the run of identifier characters starting at `i`.
pub open spec fn ident_end(cs: Seq<char>, i: int) -> int
    decreases cs.len() - i,
{
    if 0 <= i < cs.len() && is_ident_char(cs[i]) { ident_end(cs, i + 1) } else { i }
}

pub proof fn lemma_run_ends(cs: Seq<char>, j: int)
    requires
        0 <= j <= cs.len(),
    ensures
        j <= digits_end(cs, j) <= cs.len(),
        j <= ident_end(cs, j) <= cs.len(),
    decreases cs.len() - j,
{
    if j < cs.len() {
        lemma_run_ends(cs, j + 1);
    }
}

/// Decimal value of the digits `cs[a..b]`.
pub open spec fn digits_value(cs: Seq<char>, a: int, b: int) -> nat
    decreases b - a,
{
    if b <= a {
        0
    } else {
        10 * digits_value(cs, a, b - 1) + ((cs[b - 1] as int) - 48) as nat
    }
}

/// Prefix `pre` to a successful lexing result.
pub open spec fn prepend_lex(pre: Seq<LexemeView>, r: Result<Seq<LexemeView>, ErrorView>) -> Result<Seq<LexemeView>, ErrorView> {
    match r {
        Ok(s) => Ok(pre + s),
        Err(e) => Err(e),
    }
}

/// Tokens of `cs[i..]`, ending with `Eof` at the end of the text, or the first error.
pub open spec fn lex_from(cs: Seq<char>, i: int) -> Result<Seq<LexemeView>, ErrorView>
    decreases cs.len() - i,
{
    if i < 0 || i >= cs.len() {
        Ok(seq![LexemeView { tok: TokenView::Eof, span: Span { start: cs.len() as usize, end: cs.len() as usize } }])
    } else {
        let c = cs[i];
        if is_space(c) {
            lex_from(cs, i + 1)
        } else if punct_token(c) is Some {
            prepend_lex(
                seq![LexemeView { tok: punct_token(c)->0, span: Span { start: i as usize, end: (i + 1) as usize } }],
                lex_from(cs, i + 1),
            )
        } else if is_digit(c) || c == '-' {
            let neg = c == '-';
            if neg && (i + 1 >= cs.len() || !is_digit(cs[i + 1])) {
                Err(syntax_err("E_BAD_MINUS"@, Span { start: i as usize, end: (i + 1) as usize }))
            } else {
                let num_start = if neg { i + 1 } else { i };
                let end = digits_end(cs, num_start + 1);
                let mag = digits_value(cs, num_start, end) as int;
                let span = Span { start: i as usize, end: end as usize };
                proof { lemma_run_ends(cs, num_start + 1); }
                if mag > i128::MAX {
                    Err(syntax_err("E_INT_PARSE"@, span))
                } else if !fits_i64(if neg { -mag } else { mag }) {
                    Err(syntax_err("E_INT_RANGE"@, span))
                } else {
                    prepend_lex(
                        seq![LexemeView { tok: TokenView::Int((if neg { -mag } else { mag }) as i64), span }],
                        lex_from(cs, end),
                    )
                }
            }
        } else if is_ident_start(c) {
            let end = ident_end(cs, i + 1);
            proof { lemma_run_ends(cs, i + 1); }
            prepend_lex(
                seq![LexemeView { tok: TokenView::Ident(cs.subrange(i, end)), span: Span { start: i as usize, end: end as usize } }],
                lex_from(cs, end),
            )
        } else {
            Err(syntax_err("E_UNEXPECTED_CHAR"@, Span { start: i as usize, end: (i + 1) as usize }))
        }
    }
}

/// The message and hint of the first lexing error in `cs[i..]` (both empty where there is
/// none), following the same steps as [`lex_from`].
pub open spec fn lex_prose_from(cs: Seq<char>, i: int) -> (Seq<char>, Seq<char>)
    decreases cs.len() - i,
{
    if i < 0 || i >= cs.len() {
        (Seq::empty(), Seq::empty())
    } else {
        let c = cs[i];
        if is_space(c) || punct_token(c) is Some {
            lex_prose_from(cs, i + 1)
        } else if is_digit(c) || c == '-' {
            let neg = c == '-';
            if neg && (i + 1 >= cs.len() || !is_digit(cs[i + 1])) {
                ("`-` must be followed by digits here"@, "Use a unary `neg` inside map expressions; in range/lit use `-123`."@)
            } else {
                let num_start = if neg { i + 1 } else { i };
                let end = digits_end(cs, num_start + 1);
                let mag = digits_value(cs, num_start, end) as int;
                proof { lemma_run_ends(cs, num_start + 1); }
                if mag > i128::MAX {
                    ("invalid integer literal `"@ + cs.subrange(num_start, end) + "`"@, "Use a decimal integer literal."@)
                } else if !fits_i64(if neg { -mag } else { mag }) {
                    (
                        (if neg { "integer literal `"@.push('-') } else { "integer literal `"@ }) + cs.subrange(num_start, end)
                            + "` is out of i64 range"@,
                        "Use a value that fits in signed 64 bits."@,
                    )
                } else {
                    lex_prose_from(cs, end)
                }
            }
        } else if is_ident_start(c) {
            proof { lemma_run_ends(cs, i + 1); }
            lex_prose_from(cs, ident_end(cs, i + 1))
        } else {
            ("unexpected character `"@.push(c) + "`"@, "LIR v1 allows only letters, digits, _, and | ( ) , . & :."@)
        }
    }
}

/// A successful lexing ends with `Eof`, and every span lies within the text.
pub proof fn lemma_lex_shape(cs: Seq<char>, i: int)
    requires
        0 <= i,
        cs.len() <= usize::MAX,
    ensures
        lex_from(cs, i) matches Ok(s) ==> {
            &&& s.len() >= 1
            &&& s.last().tok is Eof
            &&& forall|k: int| 0 <= k < s.len() ==> (#[trigger] s[k]).span.start <= s[k].span.end <= cs.len()
        },
    decreases cs.len() - i,
{
    if i < cs.len() {
        let c = cs[i];
        if is_space(c) {
            lemma_lex_shape(cs, i + 1);
        } else if punct_token(c) is Some {
            lemma_lex_shape(cs, i + 1);
            lemma_prepend_shape(cs, LexemeView { tok: punct_token(c)->0, span: Span { start: i as usize, end: (i + 1) as usize } }, lex_from(cs, i + 1));
        } else if is_digit(c) || c == '-' {
            let neg = c == '-';
            if !(neg && (i + 1 >= cs.len() || !is_digit(cs[i + 1]))) {
                let num_start = if neg { i + 1 } else { i };
                let end = digits_end(cs, num_start + 1);
                lemma_run_ends(cs, num_start + 1);
                let mag = digits_value(cs, num_start, end) as int;
                lemma_lex_shape(cs, end);
                lemma_prepend_shape(cs, LexemeView { tok: TokenView::Int((if neg { -mag } else { mag }) as i64), span: Span { start: i as usize, end: end as usize } }, lex_from(cs, end));
            }
        } else if is_ident_start(c) {
            let end = ident_end(cs, i + 1);
            lemma_run_ends(cs, i + 1);
            lemma_lex_shape(cs, end);
            lemma_prepend_shape(cs, LexemeView { tok: TokenView::Ident(cs.subrange(i, end)), span: Span { start: i as usize, end: end as usize } }, lex_from(cs, end));
        }
    }
}

proof fn lemma_prepend_shape(cs: Seq<char>, lx: LexemeView, r: Result<Seq<LexemeView>, ErrorView>)
    requires
        lx.span.start <= lx.span.end <= cs.len(),
        r matches Ok(s) ==> {
            &&& s.len() >= 1
            &&& s.last().tok is Eof
            &&& forall|k: int| 0 <= k < s.len() ==> (#[trigger] s[k]).span.start <= s[k].span.end <= cs.len()
        },
    ensures
        prepend_lex(seq![lx], r) matches Ok(s) ==> {
            &&& s.len() >= 1
            &&& s.last().tok is Eof
            &&& forall|k: int| 0 <= k < s.len() ==> (#[trigger] s[k]).span.start <= s[k].span.end <= cs.len()
        },
{
    if let Ok(s) = r {
        let t = seq![lx] + s;
        assert forall|k: int| 0 <= k < t.len() implies (#[trigger] t[k]).span.start <= t[k].span.end <= cs.len() by {
            if k > 0 {
                assert(t[k] == s[k - 1]);
            }
        }
        assert(t.last() == s.last());
    }
}

proof fn lemma_digits_end(cs: Seq<char>, j: int, i: int)
    requires
        0 <= j <= i <= cs.len(),
        forall|k: int| j <= k < i ==> is_digit(#[trigger] cs[k]),
        i == cs.len() || !is_digit(cs[i]),
    ensures
        digits_end(cs, j) == i,
    decreases i - j,
{
    if j < i {
        lemma_digits_end(cs, j + 1, i);
    }
}

proof fn lemma_ident_end(cs: Seq<char>, j: int, i: int)
    requires
        0 <= j <= i <= cs.len(),
        forall|k: int| j <= k < i ==> is_ident_char(#[trigger] cs[k]),
        i == cs.len() || !is_ident_char(cs[i]),
    ensures
        ident_end(cs, j) == i,
    decreases i - j,
{
    if j < i {
        lemma_ident_end(cs, j + 1, i);
    }
}

/// Tokens of a program body.
pub fn lex(body: &str) -> (r: Result<Vec<Lexeme>, LirError>)
    ensures
        match (r, lex_from(body@, 0)) {
            (Ok(v), Ok(s)) => lexemes_view(v@) == s,
            (Err(e), Err(x)) => e@ == x && lir_prose(e) == lex_prose_from(body@, 0),
            _ => false,
        },
{
    let cs = chars_of(body);
    lex_chars(&cs)
}

/// Tokens of the characters `cs`.
pub fn lex_chars(cs: &Vec<char>) -> (r: Result<Vec<Lexeme>, LirError>)
    ensures
        match (r, lex_from(cs@, 0)) {
            (Ok(v), Ok(s)) => lexemes_view(v@) == s,
            (Err(e), Err(x)) => e@ == x && lir_prose(e) == lex_prose_from(cs@, 0),
            _ => false,
        },
{
    let n = cs.len();
    let mut out: Vec<Lexeme> = Vec::new();
    let mut i: usize = 0;
    while i < n
        invariant
            n == cs@.len(),
            i <= n,
            lex_from(cs@, 0) == prepend_lex(lexemes_view(out@), lex_from(cs@, i as int)),
            lex_prose_from(cs@, 0) == lex_prose_from(cs@, i as int),
        decreases n - i,
    {
        let c = cs[i];
        let ghost gi = i as int;
        let ghost old_view = lexemes_view(out@);
        if c == ' ' || c == '\t' || c == '\r' || c == '\n' {
            i = i + 1;
            continue;
        }
        let start = i;
        let tok_opt: Option<Token> = if c == '|' {
            Some(Token::Pipe)
        } else if c == '(' {
            Some(Token::LParen)
        } else if c == ')' {
            Some(Token::RParen)
        } else if c == ',' {
            Some(Token::Comma)
        } else if c == '.' {
            Some(Token::Dot)
        } else if c == '&' {
            Some(Token::Amp)
        } else if c == ':' {
            Some(Token::Colon)
        } else {
            None
        };
        if let Some(tok) = tok_opt {
            i = i + 1;
            let lx = Lexeme { tok, span: Span::new(start, i) };
            proof {
                assert(lx@ == LexemeView { tok: punct_token(c)->0, span: Span { start: start, end: i } });
            }
            out.push(lx);
            proof {
                assert(lexemes_view(out@) == old_view + seq![lx@]);
                match lex_from(cs@, i as int) {
                    Ok(s) => assert(old_view + (seq![lx@] + s) == lexemes_view(out@) + s),
                    Err(_) => {},
                }
            }
        } else if ('0' <= c && c <= '9') || c == '-' {
            let neg = c == '-';
            if neg {
                i = i + 1;
                if i >= n || !('0' <= cs[i] && cs[i] <= '9') {
                    return Err(syntax_error(
                        "E_BAD_MINUS",
                        Span::new(start, start + 1),
                        string_of("`-` must be followed by digits here"),
                        "Use a unary `neg` inside map expressions; in range/lit use `-123`.",
                    ));
                }
            }
            let num_start = i;
            i = i + 1;
            while i < n && ('0' <= cs[i] && cs[i] <= '9')
                invariant
                    n == cs@.len(),
                    num_start < i <= n,
                    forall|k: int| num_start < k < i ==> is_digit(#[trigger] cs@[k]),
                decreases n - i,
            {
                i = i + 1;
            }
            proof {
                lemma_digits_end(cs@, num_start + 1, i as int);
            }
            let mut v: i128 = 0;
            let mut ok = true;
            let mut k: usize = num_start;
            while k < i
                invariant
                    n == cs@.len(),
                    num_start <= k <= i <= n,
                    forall|m: int| num_start < m < i ==> is_digit(#[trigger] cs@[m]),
                    is_digit(cs@[num_start as int]),
                    ok ==> v as int == digits_value(cs@, num_start as int, k as int),
                    !ok ==> digits_value(cs@, num_start as int, k as int) > i128::MAX,
                decreases i - k,
            {
                let d = (cs[k] as u32 - 48) as i128;
                assert(is_digit(cs@[k as int]));
                if ok {
                    match v.checked_mul(10) {
                        Some(v10) => match v10.checked_add(d) {
                            Some(v2) => {
                                v = v2;
                            },
                            None => {
                                ok = false;
                            },
                        },
                        None => {
                            ok = false;
                            assert(digits_value(cs@, num_start as int, k as int) * 10 > i128::MAX);
                        },
                    }
                }
                k = k + 1;
            }
            let span = Span::new(start, i);
            if !ok {
                let mut m = string_of("invalid integer literal `");
                push_digits(&mut m, cs, num_start, i);
                push_str(&mut m, "`");
                return Err(syntax_error("E_INT_PARSE", span, m, "Use a decimal integer literal."));
            }
            let v128: i128 = if neg { -v } else { v };
            if v128 < i64::MIN as i128 || v128 > i64::MAX as i128 {
                let mut m = string_of("integer literal `");
                if neg {
                    push_char(&mut m, '-');
                }
                push_digits(&mut m, cs, num_start, i);
                push_str(&mut m, "` is out of i64 range");
                return Err(syntax_error("E_INT_RANGE", span, m, "Use a value that fits in signed 64 bits."));
            }
            let lx = Lexeme { tok: Token::Int(v128 as i64), span };
            out.push(lx);
            proof {
                assert(lexemes_view(out@) == old_view + seq![lx@]);
                match lex_from(cs@, i as int) {
                    Ok(s) => assert(old_view + (seq![lx@] + s) == lexemes_view(out@) + s),
                    Err(_) => {},
                }
            }
        } else if ('a' <= c && c <= 'z') || ('A' <= c && c <= 'Z') || c == '_' {
            i = i + 1;
            while i < n && (('a' <= cs[i] && cs[i] <= 'z') || ('A' <= cs[i] && cs[i] <= 'Z')
                || ('0' <= cs[i] && cs[i] <= '9') || cs[i] == '_')
                invariant
                    n == cs@.len(),
                    start < i <= n,
                    forall|k: int| start < k < i ==> is_ident_char(#[trigger] cs@[k]),
                decreases n - i,
            {
                i = i + 1;
            }
            proof {
                lemma_ident_end(cs@, start + 1, i as int);
            }
            let s = string_from_chars(cs, start, i);
            let lx = Lexeme { tok: Token::Ident(s), span: Span::new(start, i) };
            out.push(lx);
            proof {
                assert(lexemes_view(out@) == old_view + seq![lx@]);
                match lex_from(cs@, i as int) {
                    Ok(s) => assert(old_view + (seq![lx@] + s) == lexemes_view(out@) + s),
                    Err(_) => {},
                }
            }
        } else {
            let mut m = string_of("unexpected character `");
            push_char(&mut m, c);
            push_str(&mut m, "`");
            return Err(syntax_error(
                "E_UNEXPECTED_CHAR",
                Span::new(start, start + 1),
                m,
                "LIR v1 allows only letters, digits, _, and | ( ) , . & :.",
            ));
        }
    }
    let lx = Lexeme { tok: Token::Eof, span: Span::new(n, n) };
    let ghost old_view = lexemes_view(out@);
    out.push(lx);
    assert(lexemes_view(out@) == old_view + seq![lx@]);
    Ok(out)
}

/// Appends the characters `cs[lo..hi]`.
fn push_digits(m: &mut String, cs: &Vec<char>, lo: usize, hi: usize)
    requires
        lo <= hi <= cs@.len(),
    ensures
        final(m)@ == old(m)@ + cs@.subrange(lo as int, hi as int),
{
    let mut k = lo;
    while k < hi
        invariant
            lo <= k <= hi <= cs@.len(),
            m@ == old(m)@ + cs@.subrange(lo as int, k as int),
        decreases hi - k,
    {
        push_char(m, cs[k]);
        assert(cs@.subrange(lo as int, k + 1) == cs@.subrange(lo as int, k as int).push(cs@[k as int]));
        k = k + 1;
    }
}

} // verus!
