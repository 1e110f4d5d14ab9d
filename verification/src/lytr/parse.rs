//! Parser for LYTR 0.1: the edition line `lytr/0.1`, then
//! `fn main() -> i32 { ... }` (or `-> i64`) whose body holds `let <name> = <expr>;`
//! statements and `return <expr>;`.
//!
//! Expressions: an arithmetic expression, optionally compared (`== != < > <= >=`) with
//! another. Arithmetic: `+` `-` (left-associative) over `*` `/` `%` (left-associative) over
//! primaries: integer literals, `true`, `false`, names, parenthesized expressions,
//! `Ok(..)`, `Err(..)`, `if <expr> { <expr> } else { <expr> }`, and
//! `match <expr> { Ok(<name>) => <arm>, Err(<name>) => <arm> }` whose arms are expressions
//! or braced expressions.

use vstd::prelude::*;
use vstd::string::StringSliceAdditionalSpecFns;
use crate::error::{merge_spec, Span};
use crate::lytr::ast::{ev, expr_span_of, same_name, span_v, sv, svs, BinOp, Block, CmpOp, Expr, ExprV, FnItem, Program, RetTy, Stmt, StmtV};
use crate::lytr::error::{lytr_syntax, LytrError, LytrErrorView};
use crate::lytr::lex::{ascii, lex_bytes, lytr_lex_from, Token, TokenKind};
use crate::text::{int_decimal, string_of};

verus! {

/// Mathematical view of a LYTR program: statements as a sequence.
pub struct ProgramView {
    pub span: Span,
    pub name_span: Span,
    pub ret: RetTy,
    pub body_span: Span,
    pub stmts: Seq<StmtV>,
}

impl View for Program {
    type V = ProgramView;

    open spec fn view(&self) -> ProgramView {
        ProgramView { span: self.span, name_span: self.main.name_span, ret: self.main.ret, body_span: self.main.body.span, stmts: svs(self.main.body.stmts@) }
    }
}

/// The edition line.
pub const EDITION: &'static str = "lytr/0.1";

/// Kind of the token at `i` (`Eof` past the end).
pub open spec fn tk(t: Seq<Token>, i: int) -> TokenKind {
    if 0 <= i < t.len() { t[i].kind } else { TokenKind::Eof }
}

/// Span of the token at `i`.
pub open spec fn tspan(t: Seq<Token>, i: int) -> Span {
    if 0 <= i < t.len() { t[i].span } else { Span { start: 0, end: 0 } }
}

/// Position after consuming the token at `i`: the last token (`Eof`) is never passed.
pub open spec fn after(t: Seq<Token>, i: int) -> int {
    if i + 1 < t.len() { i + 1 } else { i }
}

/// The hint of parse diagnostics.
pub open spec fn parse_hint() -> Seq<char> {
    "check fn main() -> i32 { let x = ...; return ...; }"@
}

/// The parse diagnostic at the token at `i`.
pub open spec fn parse_err(t: Seq<Token>, i: int) -> LytrErrorView {
    lytr_syntax("E_LYTR_PARSE"@, tspan(t, i), "unexpected token"@, parse_hint())
}

/// The diagnostic for a token at `i` other than the expected `want`.
pub open spec fn expect_err(t: Seq<Token>, i: int, want: TokenKind) -> LytrErrorView {
    lytr_syntax(
        "E_LYTR_PARSE"@,
        tspan(t, i),
        "unexpected token (expected "@ + kind_name_spec(want) + ", got "@ + kind_name_spec(tk(t, i)) + ")"@,
        parse_hint(),
    )
}

/// The diagnostic for a token at `i` that cannot start an expression.
pub open spec fn expr_err(t: Seq<Token>, i: int) -> LytrErrorView {
    lytr_syntax(
        "E_LYTR_PARSE"@,
        tspan(t, i),
        "expected an expression"@,
        "expressions use literals, names, + - * / %, comparisons, if, Ok, Err, match and parentheses"@,
    )
}

/// The token at `i` if it has kind `want`, and the position after it.
pub open spec fn expect_sp(t: Seq<Token>, i: int, want: TokenKind) -> Result<(Token, int), LytrErrorView> {
    if tk(t, i) == want && 0 <= i < t.len() {
        Ok((t[i], after(t, i)))
    } else {
        Err(expect_err(t, i, want))
    }
}

/// Binary operator at `j` allowed at precedence level `mp` (0: `+ - * / %`; 1: `* / %`).
pub open spec fn op_at(t: Seq<Token>, j: int, mp: int) -> Option<BinOp> {
    match tk(t, j) {
        TokenKind::Plus => if mp == 0 { Some(BinOp::Add) } else { None },
        TokenKind::Minus => if mp == 0 { Some(BinOp::Sub) } else { None },
        TokenKind::Star => if mp <= 1 { Some(BinOp::Mul) } else { None },
        TokenKind::Slash => if mp <= 1 { Some(BinOp::Div) } else { None },
        TokenKind::Percent => if mp <= 1 { Some(BinOp::Mod) } else { None },
        _ => None,
    }
}

/// Precedence level of an operator.
pub open spec fn prec_of(op: BinOp) -> int {
    match op {
        BinOp::Add | BinOp::Sub => 0,
        _ => 1,
    }
}

/// The name written at span `s` of the source bytes `b`.
pub open spec fn ident_name(b: Seq<u8>, s: Span) -> Seq<u8> {
    if s.start <= s.end <= b.len() { b.subrange(s.start as int, s.end as int) } else { Seq::empty() }
}

/// Comparison operator at `j`, if any.
pub open spec fn cmp_at(t: Seq<Token>, j: int) -> Option<CmpOp> {
    match tk(t, j) {
        TokenKind::EqEq => Some(CmpOp::Eq),
        TokenKind::Ne => Some(CmpOp::Ne),
        TokenKind::Lt => Some(CmpOp::Lt),
        TokenKind::Gt => Some(CmpOp::Gt),
        TokenKind::Le => Some(CmpOp::Le),
        TokenKind::Ge => Some(CmpOp::Ge),
        _ => None,
    }
}

/// A primary expression at `i`: a literal, a variable, a parenthesized expression,
/// `Ok(..)`, `Err(..)`, `if .. { .. } else { .. }` or `match .. { Ok(x) => .., Err(e) => .. }`.
pub open spec fn primary_sp(b: Seq<u8>, t: Seq<Token>, i: int) -> Result<(ExprV, int), LytrErrorView>
    decreases t.len() - i, 0int,
{
    let sp = tspan(t, i);
    match tk(t, i) {
        TokenKind::Int(v) => Ok((ExprV::Int { value: v, span: sp }, after(t, i))),
        TokenKind::True => Ok((ExprV::BoolLit { value: true, span: sp }, after(t, i))),
        TokenKind::False => Ok((ExprV::BoolLit { value: false, span: sp }, after(t, i))),
        TokenKind::Ident => Ok((ExprV::Var { name: ident_name(b, sp), span: sp }, after(t, i))),
        TokenKind::LParen => if 0 <= i && i + 1 < t.len() {
            match full_sp(b, t, i + 1) {
                Err(e) => Err(e),
                Ok((e, j)) => match expect_sp(t, j, TokenKind::RParen) {
                    Err(x) => Err(x),
                    Ok((_, k)) => Ok((e, k)),
                },
            }
        } else {
            Err(parse_err(t, i))
        },
        TokenKind::KwOk | TokenKind::KwErr => if 0 <= i && i + 2 < t.len() {
            match expect_sp(t, i + 1, TokenKind::LParen) {
                Err(e) => Err(e),
                Ok(_) => match full_sp(b, t, i + 2) {
                    Err(e) => Err(e),
                    Ok((inner, j)) => match expect_sp(t, j, TokenKind::RParen) {
                        Err(x) => Err(x),
                        Ok((rp, k)) => {
                            let span = merge_spec(sp, rp.span);
                            if tk(t, i) == TokenKind::KwOk {
                                Ok((ExprV::ResOk { inner: Box::new(inner), span }, k))
                            } else {
                                Ok((ExprV::ResErr { inner: Box::new(inner), span }, k))
                            }
                        },
                    },
                },
            }
        } else {
            Err(parse_err(t, i))
        },
        TokenKind::If => if 0 <= i && i + 1 < t.len() {
            match full_sp(b, t, i + 1) {
                Err(e) => Err(e),
                Ok((cond, j)) => if i < j <= t.len() {
                    match block_expr_sp(b, t, j) {
                        Err(e) => Err(e),
                        Ok((th, _, k)) => match expect_sp(t, k, TokenKind::Else) {
                            Err(e) => Err(e),
                            Ok((_, m)) => if i < m <= t.len() {
                                match block_expr_sp(b, t, m) {
                                    Err(e) => Err(e),
                                    Ok((el, esp, n)) => Ok((
                                        ExprV::If {
                                            cond: Box::new(cond),
                                            then_b: Box::new(th),
                                            else_b: Box::new(el),
                                            span: Span { start: sp.start, end: esp.end },
                                        },
                                        n,
                                    )),
                                }
                            } else {
                                Err(parse_err(t, i))
                            },
                        },
                    }
                } else {
                    Err(parse_err(t, i))
                },
            }
        } else {
            Err(parse_err(t, i))
        },
        TokenKind::Match => if 0 <= i && i + 1 < t.len() {
            match full_sp(b, t, i + 1) {
                Err(e) => Err(e),
                Ok((scr, j)) => match arm_head_sp(t, j, TokenKind::LBrace, TokenKind::KwOk) {
                    Err(e) => Err(e),
                    Ok((ok_sp, j6)) => if i < j6 <= t.len() {
                        match arm_sp(b, t, j6) {
                            Err(e) => Err(e),
                            Ok((oa, j7)) => match arm_head_sp(t, j7, TokenKind::Comma, TokenKind::KwErr) {
                                Err(e) => Err(e),
                                Ok((err_sp, j13)) => if i < j13 <= t.len() {
                                    match arm_sp(b, t, j13) {
                                        Err(e) => Err(e),
                                        Ok((ea, j14)) => {
                                            let j15 = if tk(t, j14) == TokenKind::Comma { after(t, j14) } else { j14 };
                                            match expect_sp(t, j15, TokenKind::RBrace) {
                                                Err(e) => Err(e),
                                                Ok((rb, j16)) => Ok((
                                                    ExprV::Match {
                                                        scrutinee: Box::new(scr),
                                                        ok_name: ident_name(b, ok_sp),
                                                        ok_arm: Box::new(oa),
                                                        err_name: ident_name(b, err_sp),
                                                        err_arm: Box::new(ea),
                                                        span: Span { start: sp.start, end: rb.span.end },
                                                    },
                                                    j16,
                                                )),
                                            }
                                        },
                                    }
                                } else {
                                    Err(parse_err(t, i))
                                },
                            },
                        }
                    } else {
                        Err(parse_err(t, i))
                    },
                },
            }
        } else {
            Err(parse_err(t, i))
        },
        _ => Err(expr_err(t, i)),
    }
}

/// `<sep> <ctor> ( <name> ) =>` at `j`: the span of the name and the position after `=>`.
pub open spec fn arm_head_sp(t: Seq<Token>, j: int, sep: TokenKind, ctor: TokenKind) -> Result<(Span, int), LytrErrorView> {
    match expect_sp(t, j, sep) {
        Err(e) => Err(e),
        Ok((_, j1)) => match expect_sp(t, j1, ctor) {
            Err(e) => Err(e),
            Ok((_, j2)) => match expect_sp(t, j2, TokenKind::LParen) {
                Err(e) => Err(e),
                Ok((_, j3)) => match expect_sp(t, j3, TokenKind::Ident) {
                    Err(e) => Err(e),
                    Ok((id, j4)) => match expect_sp(t, j4, TokenKind::RParen) {
                        Err(e) => Err(e),
                        Ok((_, j5)) => match expect_sp(t, j5, TokenKind::FatArrow) {
                            Err(e) => Err(e),
                            Ok((_, j6)) => Ok((id.span, j6)),
                        },
                    },
                },
            },
        },
    }
}

/// An arithmetic expression at precedence level `mp` starting at `i`.
pub open spec fn expr_sp(b: Seq<u8>, t: Seq<Token>, i: int, mp: int) -> Result<(ExprV, int), LytrErrorView>
    decreases t.len() - i, 1int,
{
    match primary_sp(b, t, i) {
        Err(e) => Err(e),
        Ok((lhs, j)) => if i < j <= t.len() { expr_rest_sp(b, t, lhs, j, mp) } else { Err(parse_err(t, i)) },
    }
}

/// The rest of an arithmetic expression whose left part `lhs` ends before `j`.
pub open spec fn expr_rest_sp(b: Seq<u8>, t: Seq<Token>, lhs: ExprV, j: int, mp: int) -> Result<(ExprV, int), LytrErrorView>
    decreases t.len() - j, 2int,
{
    match op_at(t, j, mp) {
        None => Ok((lhs, j)),
        Some(op) => if 0 <= j && j + 1 <= t.len() {
            match expr_sp(b, t, j + 1, prec_of(op) + 1) {
                Err(e) => Err(e),
                Ok((rhs, k)) => if j < k <= t.len() {
                    expr_rest_sp(
                        b,
                        t,
                        ExprV::Binary { op, left: Box::new(lhs), right: Box::new(rhs), span: merge_spec(span_v(lhs), span_v(rhs)) },
                        k,
                        mp,
                    )
                } else {
                    Err(parse_err(t, j))
                },
            }
        } else {
            Err(parse_err(t, j))
        },
    }
}

/// A full expression at `i`: an arithmetic expression, optionally compared with another.
pub open spec fn full_sp(b: Seq<u8>, t: Seq<Token>, i: int) -> Result<(ExprV, int), LytrErrorView>
    decreases t.len() - i, 3int,
{
    match expr_sp(b, t, i, 0) {
        Err(e) => Err(e),
        Ok((lhs, j)) => if i < j <= t.len() {
            match cmp_at(t, j) {
                None => Ok((lhs, j)),
                Some(op) => if j + 1 <= t.len() {
                    match expr_sp(b, t, j + 1, 0) {
                        Err(e) => Err(e),
                        Ok((rhs, k)) => Ok((
                            ExprV::Cmp { op, left: Box::new(lhs), right: Box::new(rhs), span: merge_spec(span_v(lhs), span_v(rhs)) },
                            k,
                        )),
                    }
                } else {
                    Err(parse_err(t, j))
                },
            }
        } else {
            Err(parse_err(t, i))
        },
    }
}

/// `{ <expr> }` at `i`: the expression, the span of the braces, and the position after.
pub open spec fn block_expr_sp(b: Seq<u8>, t: Seq<Token>, i: int) -> Result<(ExprV, Span, int), LytrErrorView>
    decreases t.len() - i, 4int,
{
    if 0 <= i && i + 1 < t.len() {
        match expect_sp(t, i, TokenKind::LBrace) {
            Err(e) => Err(e),
            Ok(_) => match full_sp(b, t, i + 1) {
                Err(e) => Err(e),
                Ok((e, k)) => match expect_sp(t, k, TokenKind::RBrace) {
                    Err(x) => Err(x),
                    Ok((rb, m)) => Ok((e, Span { start: tspan(t, i).start, end: rb.span.end }, m)),
                },
            },
        }
    } else {
        Err(parse_err(t, i))
    }
}

/// A `match` arm body at `i`: a braced expression or an expression.
pub open spec fn arm_sp(b: Seq<u8>, t: Seq<Token>, i: int) -> Result<(ExprV, int), LytrErrorView>
    decreases t.len() - i, 5int,
{
    if tk(t, i) == TokenKind::LBrace {
        match block_expr_sp(b, t, i) {
            Err(e) => Err(e),
            Ok((e, _, k)) => Ok((e, k)),
        }
    } else {
        full_sp(b, t, i)
    }
}

/// `let <name> = <expr> ;` or `return <expr> ;` at `i`.
pub open spec fn stmt_sp(b: Seq<u8>, t: Seq<Token>, i: int) -> Result<(StmtV, int), LytrErrorView> {
    if tk(t, i) == TokenKind::Let {
        match expect_sp(t, i, TokenKind::Let) {
            Err(e) => Err(e),
            Ok((lt, i1)) => match expect_sp(t, i1, TokenKind::Ident) {
                Err(e) => Err(e),
                Ok((id, i2)) => match expect_sp(t, i2, TokenKind::Assign) {
                    Err(e) => Err(e),
                    Ok((_, i3)) => match full_sp(b, t, i3) {
                        Err(e) => Err(e),
                        Ok((init, i4)) => match expect_sp(t, i4, TokenKind::Semi) {
                            Err(e) => Err(e),
                            Ok((semi, i5)) => Ok((
                                StmtV::Let { name: ident_name(b, id.span), init, span: Span { start: lt.span.start, end: semi.span.end } },
                                i5,
                            )),
                        },
                    },
                },
            },
        }
    } else {
        match expect_sp(t, i, TokenKind::Return) {
            Err(e) => Err(e),
            Ok((ret, i1)) => match full_sp(b, t, i1) {
                Err(e) => Err(e),
                Ok((expr, i2)) => match expect_sp(t, i2, TokenKind::Semi) {
                    Err(e) => Err(e),
                    Ok((semi, i3)) => Ok((StmtV::Return { expr, span: Span { start: ret.span.start, end: semi.span.end } }, i3)),
                },
            },
        }
    }
}

/// Statements from `j` up to the closing `}`.
pub open spec fn stmts_sp(b: Seq<u8>, t: Seq<Token>, j: int) -> Result<(Seq<StmtV>, int), LytrErrorView>
    decreases t.len() - j,
{
    if tk(t, j) == TokenKind::RBrace {
        Ok((Seq::empty(), j))
    } else {
        match stmt_sp(b, t, j) {
            Err(e) => Err(e),
            Ok((s, k)) => if j < k <= t.len() {
                match stmts_sp(b, t, k) {
                    Err(e) => Err(e),
                    Ok((rest, m)) => Ok((seq![s] + rest, m)),
                }
            } else {
                Err(parse_err(t, j))
            },
        }
    }
}

/// `{ statements }` at `i`: its span, statements, and the position after it.
pub open spec fn block_sp(b: Seq<u8>, t: Seq<Token>, i: int) -> Result<(Span, Seq<StmtV>, int), LytrErrorView> {
    match expect_sp(t, i, TokenKind::LBrace) {
        Err(e) => Err(e),
        Ok((lb, i1)) => match stmts_sp(b, t, i1) {
            Err(e) => Err(e),
            Ok((stmts, i2)) => match expect_sp(t, i2, TokenKind::RBrace) {
                Err(e) => Err(e),
                Ok((rb, i3)) => Ok((Span { start: lb.span.start, end: rb.span.end }, stmts, i3)),
            },
        },
    }
}

/// The result type of `main` at `i`: `i32`, or the word `i64`.
pub open spec fn ret_sp(b: Seq<u8>, t: Seq<Token>, i: int) -> Result<(RetTy, int), LytrErrorView> {
    if tk(t, i) == TokenKind::I32 && 0 <= i < t.len() {
        Ok((RetTy::I32, after(t, i)))
    } else if tk(t, i) == TokenKind::Ident && 0 <= i < t.len() && ident_name(b, tspan(t, i)) == ascii("i64"@) {
        Ok((RetTy::I64, after(t, i)))
    } else {
        Err(parse_err(t, i))
    }
}

/// `fn main() -> i32 { ... }` (or `-> i64`) and the end of input, over the whole token sequence.
pub open spec fn program_sp(b: Seq<u8>, t: Seq<Token>) -> Result<ProgramView, LytrErrorView> {
    let prog_start = tspan(t, 0).start;
    match expect_sp(t, 0, TokenKind::Fn) {
        Err(e) => Err(e),
        Ok((_, i1)) => match expect_sp(t, i1, TokenKind::Main) {
            Err(e) => Err(e),
            Ok((main_tok, i2)) => match expect_sp(t, i2, TokenKind::LParen) {
                Err(e) => Err(e),
                Ok((_, i3)) => match expect_sp(t, i3, TokenKind::RParen) {
                    Err(e) => Err(e),
                    Ok((_, i4)) => match expect_sp(t, i4, TokenKind::Arrow) {
                        Err(e) => Err(e),
                        Ok((_, i5)) => match ret_sp(b, t, i5) {
                            Err(e) => Err(e),
                            Ok((ret, i6)) => match block_sp(b, t, i6) {
                                Err(e) => Err(e),
                                Ok((bspan, stmts, i7)) => match expect_sp(t, i7, TokenKind::Eof) {
                                    Err(e) => Err(e),
                                    Ok(_) => Ok(ProgramView {
                                        span: Span { start: prog_start, end: bspan.end },
                                        name_span: main_tok.span,
                                        ret,
                                        body_span: bspan,
                                        stmts,
                                    }),
                                },
                            },
                        },
                    },
                },
            },
        },
    }
}

/// Where the body starts after the edition line, or the header diagnostic.
pub open spec fn edition_sp(b: Seq<u8>) -> Result<int, LytrErrorView> {
    let ed = ascii(EDITION@);
    if !(ed.len() <= b.len() && b.take(ed.len() as int) == ed) {
        Err(lytr_syntax(
            "E_LYTR_HEADER"@,
            Span { start: 0, end: (if b.len() < 12 { b.len() } else { 12 }) as usize },
            "expected `lytr/0.1` at start of file"@,
            "first line must be lytr/0.1"@,
        ))
    } else if b.len() >= 10 && b[8] == 13 && b[9] == 10 {
        Ok(10)
    } else if b.len() >= 9 && b[8] == 10 {
        Ok(9)
    } else {
        Err(lytr_syntax("E_LYTR_HEADER"@, Span { start: 0, end: 8 }, "newline required after lytr/0.1"@, "use a newline after the edition line"@))
    }
}

/// Outcome of parsing a whole LYTR file given as UTF-8 bytes.
pub open spec fn lytr_parse_spec(b: Seq<u8>) -> Result<ProgramView, LytrErrorView> {
    match edition_sp(b) {
        Err(e) => Err(e),
        Ok(start) => match lytr_lex_from(b, start, 0) {
            Err(e) => Err(e),
            Ok(toks) => program_sp(b, toks),
        },
    }
}

/// The token sequence ends with its only `Eof` position being the last.
pub open spec fn eof_last(t: Seq<Token>) -> bool {
    t.len() >= 1 && t.last().kind == TokenKind::Eof
}

/// The parse outcome `r` of the exec parser agrees with the spec outcome `s`, and the parser
/// stands after it.
pub open spec fn agrees(r: Result<Expr, LytrError>, s: Result<(ExprV, int), LytrErrorView>, after_p: Parser, before: Parser) -> bool {
    match (r, s) {
        (Ok(v), Ok((x, j))) => ev(v) == x && after_p.at(before, j),
        (Err(e), Err(x)) => e@ == x,
        _ => false,
    }
}

/// Parser over a token sequence that ends with `Eof`, with the source bytes for names.
pub struct Parser {
    tokens: Vec<Token>,
    i: usize,
    src: Vec<u8>,
}

impl Parser {
    pub closed spec fn t(self) -> Seq<Token> {
        self.tokens@
    }

    pub closed spec fn b(self) -> Seq<u8> {
        self.src@
    }

    pub closed spec fn pos(self) -> int {
        self.i as int
    }

    pub closed spec fn wf(self) -> bool {
        eof_last(self.tokens@) && self.i < self.tokens@.len()
    }

    pub closed spec fn at(self, before: Parser, j: int) -> bool {
        self.tokens@ == before.tokens@ && self.src@ == before.src@ && self.i == j && self.wf()
    }

    fn new(tokens: Vec<Token>, src: Vec<u8>) -> (p: Parser)
        requires
            eof_last(tokens@),
        ensures
            p.wf(),
            p.pos() == 0,
            p.t() == tokens@,
            p.b() == src@,
    {
        Parser { tokens, i: 0, src }
    }

    fn cur(&self) -> (r: Token)
        requires
            self.wf(),
        ensures
            r == self.tokens@[self.i as int],
    {
        self.tokens[self.i]
    }

    fn bump(&mut self) -> (r: Token)
        requires
            old(self).wf(),
        ensures
            r == old(self).tokens@[old(self).i as int],
            final(self).at(*old(self), after(old(self).t(), old(self).i as int)),
    {
        let t = self.cur();
        if self.i < self.tokens.len() - 1 {
            self.i = self.i + 1;
        }
        t
    }

    /// The parse diagnostic at the token at `i`.
    fn err_at(&self, i: usize) -> (e: LytrError)
        requires
            self.wf(),
            i < self.tokens@.len(),
        ensures
            e@ == parse_err(self.t(), i as int),
    {
        LytrError::Syntax {
            code: "E_LYTR_PARSE",
            span: self.tokens[i].span,
            message: string_of("unexpected token"),
            fix_hint: string_of("check fn main() -> i32 { let x = ...; return ...; }"),
        }
    }

    /// The name written at span `s`.
    fn name_at(&self, s: Span) -> (r: Vec<u8>)
        ensures
            r@ == ident_name(self.b(), s),
    {
        let mut r: Vec<u8> = Vec::new();
        if s.start <= s.end && s.end <= self.src.len() {
            let mut k = s.start;
            while k < s.end
                invariant
                    s.start <= k <= s.end <= self.src@.len(),
                    r@ == self.src@.subrange(s.start as int, k as int),
                decreases s.end - k,
            {
                r.push(self.src[k]);
                assert(self.src@.subrange(s.start as int, k + 1) == self.src@.subrange(s.start as int, k as int).push(self.src@[k as int]));
                k = k + 1;
            }
        } else {
            assert(r@ == Seq::<u8>::empty());
        }
        r
    }

    fn expect(&mut self, want: TokenKind) -> (r: Result<Token, LytrError>)
        requires
            old(self).wf(),
        ensures
            match (r, expect_sp(old(self).t(), old(self).pos(), want)) {
                (Ok(tok), Ok((x, j))) => tok == x && final(self).at(*old(self), j),
                (Err(e), Err(x)) => e@ == x,
                _ => false,
            },
    {
        let t = self.cur();
        if t.kind != want {
            let mut message = string_of("unexpected token (expected ");
            crate::text::push_string(&mut message, &kind_name(want));
            crate::text::push_str(&mut message, ", got ");
            crate::text::push_string(&mut message, &kind_name(t.kind));
            crate::text::push_str(&mut message, ")");
            return Err(LytrError::Syntax {
                code: "E_LYTR_PARSE",
                span: t.span,
                message,
                fix_hint: string_of("check fn main() -> i32 { let x = ...; return ...; }"),
            });
        }
        Ok(self.bump())
    }

    fn parse_primary(&mut self) -> (r: Result<Expr, LytrError>)
        requires
            old(self).wf(),
        ensures
            agrees(r, primary_sp(old(self).b(), old(self).t(), old(self).pos()), *final(self), *old(self)),
        decreases old(self).tokens@.len() - old(self).i, 1int,
    {
        let i0 = self.i;
        let n = self.tokens.len();
        let t = self.cur();
        match t.kind {
            TokenKind::Int(v) => {
                self.bump();
                Ok(Expr::Int { value: v, span: t.span })
            },
            TokenKind::True => {
                self.bump();
                Ok(Expr::BoolLit { value: true, span: t.span })
            },
            TokenKind::False => {
                self.bump();
                Ok(Expr::BoolLit { value: false, span: t.span })
            },
            TokenKind::Ident => {
                let name = self.name_at(t.span);
                self.bump();
                Ok(Expr::Var { name, span: t.span })
            },
            TokenKind::LParen => {
                if !(i0 + 1 < n) {
                    return Err(self.err_at(i0));
                }
                self.bump();
                let e = self.parse_full()?;
                self.expect(TokenKind::RParen)?;
                Ok(e)
            },
            TokenKind::KwOk | TokenKind::KwErr => self.parse_result(),
            TokenKind::If => self.parse_if(),
            TokenKind::Match => self.parse_match(),
            _ => Err(LytrError::Syntax {
                code: "E_LYTR_PARSE",
                span: t.span,
                message: string_of("expected an expression"),
                fix_hint: string_of("expressions use literals, names, + - * / %, comparisons, if, Ok, Err, match and parentheses"),
            }),
        }
    }

    /// `Ok(<expr>)` or `Err(<expr>)`.
    fn parse_result(&mut self) -> (r: Result<Expr, LytrError>)
        requires
            old(self).wf(),
            tk(old(self).t(), old(self).pos()) == TokenKind::KwOk || tk(old(self).t(), old(self).pos()) == TokenKind::KwErr,
        ensures
            agrees(r, primary_sp(old(self).b(), old(self).t(), old(self).pos()), *final(self), *old(self)),
        decreases old(self).tokens@.len() - old(self).i, 0int,
    {
        let i0 = self.i;
        let n = self.tokens.len();
        let t = self.cur();
        if !(i0 + 2 < n) {
            return Err(self.err_at(i0));
        }
        self.bump();
        self.expect(TokenKind::LParen)?;
        let inner = self.parse_full()?;
        let rp = self.expect(TokenKind::RParen)?;
        let span = Span::merge(t.span, rp.span);
        if t.kind == TokenKind::KwOk {
            Ok(Expr::ResOk { inner: Box::new(inner), span })
        } else {
            Ok(Expr::ResErr { inner: Box::new(inner), span })
        }
    }

    /// `if <expr> { <expr> } else { <expr> }`.
    fn parse_if(&mut self) -> (r: Result<Expr, LytrError>)
        requires
            old(self).wf(),
            tk(old(self).t(), old(self).pos()) == TokenKind::If,
        ensures
            agrees(r, primary_sp(old(self).b(), old(self).t(), old(self).pos()), *final(self), *old(self)),
        decreases old(self).tokens@.len() - old(self).i, 0int,
    {
        let i0 = self.i;
        let n = self.tokens.len();
        let t = self.cur();
        if !(i0 + 1 < n) {
            return Err(self.err_at(i0));
        }
        self.bump();
        let cond = self.parse_full()?;
        if !(i0 < self.i) {
            return Err(self.err_at(i0));
        }
        let (th, _tsp) = self.parse_block_expr()?;
        self.expect(TokenKind::Else)?;
        if !(i0 < self.i) {
            return Err(self.err_at(i0));
        }
        let (el, esp) = self.parse_block_expr()?;
        Ok(Expr::If {
            cond: Box::new(cond),
            then_b: Box::new(th),
            else_b: Box::new(el),
            span: Span::new(t.span.start, esp.end),
        })
    }

    /// `match <expr> { Ok(<name>) => <arm>, Err(<name>) => <arm> }`.
    fn parse_match(&mut self) -> (r: Result<Expr, LytrError>)
        requires
            old(self).wf(),
            tk(old(self).t(), old(self).pos()) == TokenKind::Match,
        ensures
            agrees(r, primary_sp(old(self).b(), old(self).t(), old(self).pos()), *final(self), *old(self)),
        decreases old(self).tokens@.len() - old(self).i, 0int,
    {
        let i0 = self.i;
        let n = self.tokens.len();
        let t = self.cur();
        if !(i0 + 1 < n) {
            return Err(self.err_at(i0));
        }
        self.bump();
        let scr = self.parse_full()?;
        let ok_sp = self.parse_arm_head(TokenKind::LBrace, TokenKind::KwOk)?;
        if !(i0 < self.i) {
            return Err(self.err_at(i0));
        }
        let oa = self.parse_arm()?;
        let err_sp = self.parse_arm_head(TokenKind::Comma, TokenKind::KwErr)?;
        if !(i0 < self.i) {
            return Err(self.err_at(i0));
        }
        let ea = self.parse_arm()?;
        if self.cur().kind == TokenKind::Comma {
            self.bump();
        }
        let rb = self.expect(TokenKind::RBrace)?;
        let ok_name = self.name_at(ok_sp);
        let err_name = self.name_at(err_sp);
        Ok(Expr::Match {
            scrutinee: Box::new(scr),
            ok_name,
            ok_arm: Box::new(oa),
            err_name,
            err_arm: Box::new(ea),
            span: Span::new(t.span.start, rb.span.end),
        })
    }

    fn parse_arm_head(&mut self, sep: TokenKind, ctor: TokenKind) -> (r: Result<Span, LytrError>)
        requires
            old(self).wf(),
        ensures
            match (r, arm_head_sp(old(self).t(), old(self).pos(), sep, ctor)) {
                (Ok(v), Ok((x, j))) => v == x && final(self).at(*old(self), j),
                (Err(e), Err(x)) => e@ == x,
                _ => false,
            },
    {
        self.expect(sep)?;
        self.expect(ctor)?;
        self.expect(TokenKind::LParen)?;
        let id = self.expect(TokenKind::Ident)?;
        self.expect(TokenKind::RParen)?;
        self.expect(TokenKind::FatArrow)?;
        Ok(id.span)
    }

    /// Precedence climbing: `min_prec` 0 admits `+ - * / %`, 1 admits `* / %`, 2 none.
    fn parse_expr(&mut self, min_prec: u8) -> (r: Result<Expr, LytrError>)
        requires
            old(self).wf(),
            min_prec <= 2,
        ensures
            agrees(r, expr_sp(old(self).b(), old(self).t(), old(self).pos(), min_prec as int), *final(self), *old(self)),
        decreases old(self).tokens@.len() - old(self).i, 2int,
    {
        let ghost t = self.t();
        let ghost b = self.b();
        let i0 = self.i;
        let ghost before = *self;
        let ghost mp = min_prec as int;
        let mut lhs = self.parse_primary()?;
        if !(i0 < self.i) {
            return Err(self.err_at(i0));
        }
        loop
            invariant
                self.wf(),
                before == *old(self),
                t == old(self).t(),
                b == old(self).b(),
                i0 == old(self).i,
                mp == min_prec as int,
                min_prec <= 2,
                self.at(before, self.i as int),
                i0 < self.i,
                expr_sp(b, t, i0 as int, mp) == expr_rest_sp(b, t, ev(lhs), self.i as int, mp),
            ensures
                expr_sp(b, t, i0 as int, mp) == Ok::<(ExprV, int), LytrErrorView>((ev(lhs), self.i as int)),
                self.at(before, self.i as int),
            decreases self.tokens@.len() - self.i,
        {
            let k = self.cur().kind;
            let op = match k {
                TokenKind::Plus => if min_prec == 0 { Some(BinOp::Add) } else { None },
                TokenKind::Minus => if min_prec == 0 { Some(BinOp::Sub) } else { None },
                TokenKind::Star => if min_prec <= 1 { Some(BinOp::Mul) } else { None },
                TokenKind::Slash => if min_prec <= 1 { Some(BinOp::Div) } else { None },
                TokenKind::Percent => if min_prec <= 1 { Some(BinOp::Mod) } else { None },
                _ => None,
            };
            assert(op == op_at(t, self.i as int, mp));
            let op = match op {
                Some(op) => op,
                None => {
                    break;
                },
            };
            let prec: u8 = match op {
                BinOp::Add | BinOp::Sub => 0,
                _ => 1,
            };
            let j = self.i;
            self.bump();
            let rhs = self.parse_expr(prec + 1)?;
            if !(j < self.i) {
                return Err(self.err_at(j));
            }
            let span = Span::merge(lhs_span(&lhs), lhs_span(&rhs));
            lhs = Expr::Binary { op, left: Box::new(lhs), right: Box::new(rhs), span };
        }
        Ok(lhs)
    }

    /// An arithmetic expression, optionally compared with another.
    fn parse_full(&mut self) -> (r: Result<Expr, LytrError>)
        requires
            old(self).wf(),
        ensures
            agrees(r, full_sp(old(self).b(), old(self).t(), old(self).pos()), *final(self), *old(self)),
        decreases old(self).tokens@.len() - old(self).i, 3int,
    {
        let i0 = self.i;
        let lhs = self.parse_expr(0)?;
        if !(i0 < self.i) {
            return Err(self.err_at(i0));
        }
        let k = self.cur().kind;
        let op = match k {
            TokenKind::EqEq => Some(CmpOp::Eq),
            TokenKind::Ne => Some(CmpOp::Ne),
            TokenKind::Lt => Some(CmpOp::Lt),
            TokenKind::Gt => Some(CmpOp::Gt),
            TokenKind::Le => Some(CmpOp::Le),
            TokenKind::Ge => Some(CmpOp::Ge),
            _ => None,
        };
        match op {
            None => Ok(lhs),
            Some(op) => {
                self.bump();
                let rhs = self.parse_expr(0)?;
                let span = Span::merge(lhs_span(&lhs), lhs_span(&rhs));
                Ok(Expr::Cmp { op, left: Box::new(lhs), right: Box::new(rhs), span })
            },
        }
    }

    /// `{ <expr> }`: the expression and the span of the braces.
    fn parse_block_expr(&mut self) -> (r: Result<(Expr, Span), LytrError>)
        requires
            old(self).wf(),
        ensures
            match (r, block_expr_sp(old(self).b(), old(self).t(), old(self).pos())) {
                (Ok((e, sp)), Ok((x, xsp, j))) => ev(e) == x && sp == xsp && final(self).at(*old(self), j),
                (Err(e), Err(x)) => e@ == x,
                _ => false,
            },
        decreases old(self).tokens@.len() - old(self).i, 4int,
    {
        let i0 = self.i;
        let n = self.tokens.len();
        proof {
            assert(self.wf());
        }
        if !(i0 + 1 < n) {
            return Err(self.err_at(i0));
        }
        let lb = self.expect(TokenKind::LBrace)?;
        let e = self.parse_full()?;
        let rb = self.expect(TokenKind::RBrace)?;
        Ok((e, Span::new(lb.span.start, rb.span.end)))
    }

    /// A `match` arm body.
    fn parse_arm(&mut self) -> (r: Result<Expr, LytrError>)
        requires
            old(self).wf(),
        ensures
            agrees(r, arm_sp(old(self).b(), old(self).t(), old(self).pos()), *final(self), *old(self)),
        decreases old(self).tokens@.len() - old(self).i, 5int,
    {
        if self.cur().kind == TokenKind::LBrace {
            let (e, _sp) = self.parse_block_expr()?;
            Ok(e)
        } else {
            self.parse_full()
        }
    }

    fn parse_stmt(&mut self) -> (r: Result<Stmt, LytrError>)
        requires
            old(self).wf(),
        ensures
            match (r, stmt_sp(old(self).b(), old(self).t(), old(self).pos())) {
                (Ok(v), Ok((x, j))) => sv(v) == x && final(self).at(*old(self), j),
                (Err(e), Err(x)) => e@ == x,
                _ => false,
            },
    {
        if self.cur().kind == TokenKind::Let {
            let lt = self.expect(TokenKind::Let)?;
            let id = self.expect(TokenKind::Ident)?;
            self.expect(TokenKind::Assign)?;
            let init = self.parse_full()?;
            let semi = self.expect(TokenKind::Semi)?;
            let name = self.name_at(id.span);
            Ok(Stmt::Let { name, init, span: Span::new(lt.span.start, semi.span.end) })
        } else {
            let ret = self.expect(TokenKind::Return)?;
            let expr = self.parse_full()?;
            let semi = self.expect(TokenKind::Semi)?;
            Ok(Stmt::Return { expr, span: Span::new(ret.span.start, semi.span.end) })
        }
    }

    fn parse_block(&mut self) -> (r: Result<Block, LytrError>)
        requires
            old(self).wf(),
        ensures
            match (r, block_sp(old(self).b(), old(self).t(), old(self).pos())) {
                (Ok(bl), Ok((sp, stmts, j))) => bl.span == sp && svs(bl.stmts@) == stmts && final(self).at(*old(self), j),
                (Err(e), Err(x)) => e@ == x,
                _ => false,
            },
    {
        let ghost t = self.t();
        let ghost b = self.b();
        let ghost i0 = self.i as int;
        let ghost before = *self;
        let lb = self.expect(TokenKind::LBrace)?;
        let ghost i1 = self.i as int;
        let mut stmts: Vec<Stmt> = Vec::new();
        while self.cur().kind != TokenKind::RBrace
            invariant
                self.wf(),
                self.at(before, self.i as int),
                before == *old(self),
                t == old(self).t(),
                b == old(self).b(),
                old(self).i == i0,
                expect_sp(t, i0, TokenKind::LBrace) == Ok::<(Token, int), LytrErrorView>((lb, i1)),
                stmts_sp(b, t, i1) == (match stmts_sp(b, t, self.i as int) {
                    Ok((rest, m)) => Ok((svs(stmts@) + rest, m)),
                    Err(e) => Err::<(Seq<StmtV>, int), LytrErrorView>(e),
                }),
            decreases self.tokens@.len() - self.i,
        {
            let j = self.i;
            let ghost pre = svs(stmts@);
            let st = self.parse_stmt()?;
            if !(j < self.i) {
                return Err(self.err_at(j));
            }
            stmts.push(st);
            proof {
                match stmts_sp(b, t, self.i as int) {
                    Ok((rest, m)) => {
                        assert(svs(stmts@) == pre.push(sv(st)));
                        assert(pre + (seq![sv(st)] + rest) == svs(stmts@) + rest);
                    },
                    Err(_) => {},
                }
            }
        }
        assert(svs(stmts@) + Seq::<StmtV>::empty() == svs(stmts@));
        let rb = self.expect(TokenKind::RBrace)?;
        Ok(Block { span: Span::new(lb.span.start, rb.span.end), stmts })
    }

    fn parse_ret(&mut self) -> (r: Result<RetTy, LytrError>)
        requires
            old(self).wf(),
        ensures
            match (r, ret_sp(old(self).b(), old(self).t(), old(self).pos())) {
                (Ok(v), Ok((x, j))) => v == x && final(self).at(*old(self), j),
                (Err(e), Err(x)) => e@ == x,
                _ => false,
            },
    {
        let t = self.cur();
        if t.kind == TokenKind::I32 {
            self.bump();
            return Ok(RetTy::I32);
        }
        if t.kind == TokenKind::Ident {
            let name = self.name_at(t.span);
            let want: Vec<u8> = vec![105u8, 54u8, 52u8];
            proof {
                reveal_strlit("i64");
                assert(ascii("i64"@) == want@);
            }
            if same_name(&name, &want) {
                self.bump();
                return Ok(RetTy::I64);
            }
        }
        Err(self.err_at(self.i))
    }

    fn parse_program(&mut self) -> (r: Result<Program, LytrError>)
        requires
            old(self).wf(),
            old(self).pos() == 0,
        ensures
            match (r, program_sp(old(self).b(), old(self).t())) {
                (Ok(p), Ok(v)) => p@ == v,
                (Err(e), Err(x)) => e@ == x,
                _ => false,
            },
    {
        let prog_start = self.cur().span.start;
        self.expect(TokenKind::Fn)?;
        let main_tok = self.expect(TokenKind::Main)?;
        self.expect(TokenKind::LParen)?;
        self.expect(TokenKind::RParen)?;
        self.expect(TokenKind::Arrow)?;
        let ret = self.parse_ret()?;
        let body = self.parse_block()?;
        self.expect(TokenKind::Eof)?;
        let prog_end = body.span.end;
        Ok(Program { span: Span::new(prog_start, prog_end), main: FnItem { name_span: main_tok.span, ret, body } })
    }
}

/// Span of an expression.
pub fn lhs_span(e: &Expr) -> (r: Span)
    ensures
        r == expr_span_of(*e),
        r == span_v(ev(*e)),
{
    match e {
        Expr::Int { span, .. } => *span,
        Expr::BoolLit { span, .. } => *span,
        Expr::Var { span, .. } => *span,
        Expr::Binary { span, .. } => *span,
        Expr::Cmp { span, .. } => *span,
        Expr::If { span, .. } => *span,
        Expr::ResOk { span, .. } => *span,
        Expr::ResErr { span, .. } => *span,
        Expr::Match { span, .. } => *span,
    }
}

/// The name of a token kind, as in diagnostics: `Int(<value>)` for an integer.
pub open spec fn kind_name_spec(k: TokenKind) -> Seq<char> {
    match k {
        TokenKind::Int(v) => "Int("@ + int_decimal(v as int) + ")"@,
        TokenKind::Fn => "Fn"@,
        TokenKind::Main => "Main"@,
        TokenKind::Let => "Let"@,
        TokenKind::If => "If"@,
        TokenKind::Else => "Else"@,
        TokenKind::Return => "Return"@,
        TokenKind::True => "True"@,
        TokenKind::False => "False"@,
        TokenKind::Bool => "Bool"@,
        TokenKind::I32 => "I32"@,
        TokenKind::Result => "Result"@,
        TokenKind::KwOk => "Ok"@,
        TokenKind::KwErr => "Err"@,
        TokenKind::Match => "Match"@,
        TokenKind::LParen => "LParen"@,
        TokenKind::RParen => "RParen"@,
        TokenKind::LBrace => "LBrace"@,
        TokenKind::RBrace => "RBrace"@,
        TokenKind::Arrow => "Arrow"@,
        TokenKind::Semi => "Semi"@,
        TokenKind::Comma => "Comma"@,
        TokenKind::Colon => "Colon"@,
        TokenKind::FatArrow => "FatArrow"@,
        TokenKind::Lt => "Lt"@,
        TokenKind::Gt => "Gt"@,
        TokenKind::Assign => "Assign"@,
        TokenKind::EqEq => "EqEq"@,
        TokenKind::Ne => "Ne"@,
        TokenKind::Le => "Le"@,
        TokenKind::Ge => "Ge"@,
        TokenKind::Plus => "Plus"@,
        TokenKind::Minus => "Minus"@,
        TokenKind::Star => "Star"@,
        TokenKind::Slash => "Slash"@,
        TokenKind::Percent => "Percent"@,
        TokenKind::Ident => "Ident"@,
        TokenKind::Eof => "Eof"@,
    }
}

/// The name of a token kind, as in diagnostics.
fn kind_name(k: TokenKind) -> (s: String)
    ensures
        s@ == kind_name_spec(k),
{
    match k {
        TokenKind::Int(v) => {
            let mut s = string_of("Int(");
            crate::text::push_i64(&mut s, v as i64);
            crate::text::push_str(&mut s, ")");
            s
        },
        TokenKind::Fn => string_of("Fn"),
        TokenKind::Main => string_of("Main"),
        TokenKind::Let => string_of("Let"),
        TokenKind::If => string_of("If"),
        TokenKind::Else => string_of("Else"),
        TokenKind::Return => string_of("Return"),
        TokenKind::True => string_of("True"),
        TokenKind::False => string_of("False"),
        TokenKind::Bool => string_of("Bool"),
        TokenKind::I32 => string_of("I32"),
        TokenKind::Result => string_of("Result"),
        TokenKind::KwOk => string_of("Ok"),
        TokenKind::KwErr => string_of("Err"),
        TokenKind::Match => string_of("Match"),
        TokenKind::LParen => string_of("LParen"),
        TokenKind::RParen => string_of("RParen"),
        TokenKind::LBrace => string_of("LBrace"),
        TokenKind::RBrace => string_of("RBrace"),
        TokenKind::Arrow => string_of("Arrow"),
        TokenKind::Semi => string_of("Semi"),
        TokenKind::Comma => string_of("Comma"),
        TokenKind::Colon => string_of("Colon"),
        TokenKind::FatArrow => string_of("FatArrow"),
        TokenKind::Lt => string_of("Lt"),
        TokenKind::Gt => string_of("Gt"),
        TokenKind::Assign => string_of("Assign"),
        TokenKind::EqEq => string_of("EqEq"),
        TokenKind::Ne => string_of("Ne"),
        TokenKind::Le => string_of("Le"),
        TokenKind::Ge => string_of("Ge"),
        TokenKind::Plus => string_of("Plus"),
        TokenKind::Minus => string_of("Minus"),
        TokenKind::Star => string_of("Star"),
        TokenKind::Slash => string_of("Slash"),
        TokenKind::Percent => string_of("Percent"),
        TokenKind::Ident => string_of("Ident"),
        TokenKind::Eof => string_of("Eof"),
    }
}

/// Lexing ends with `Eof`.
proof fn lemma_lex_ends_eof(bs: Seq<u8>, i: int, base: int)
    ensures
        lytr_lex_from(bs, i, base) matches Ok(s) ==> eof_last(s),
    decreases bs.len() - i,
{
    if 0 <= i < bs.len() {
        let b = bs[i];
        if i + 2 <= bs.len() {
            crate::lytr::lex::lemma_comment_end(bs, i + 2);
        }
        crate::lytr::lex::lemma_word_end(bs, i + 1, false);
        crate::lytr::lex::lemma_word_end(bs, i + 1, true);
        if crate::lytr::lex::is_space_byte(b) {
            lemma_lex_ends_eof(bs, i + 1, base);
        } else if i + 1 < bs.len() && b == 47 && bs[i + 1] == 47 {
            let j = crate::lytr::lex::comment_end(bs, i + 2);
            if i < j <= bs.len() {
                lemma_lex_ends_eof(bs, j, base);
            }
        } else if i + 1 < bs.len() && crate::lytr::lex::two_byte_op(b, bs[i + 1]) is Some {
            lemma_lex_ends_eof(bs, i + 2, base);
        } else if b == 61 {
            lemma_lex_ends_eof(bs, i + 1, base);
        } else if crate::lytr::lex::is_alpha_byte(b) || b == 95 {
            let j = crate::lytr::lex::word_end(bs, i + 1, false);
            if i < j <= bs.len() {
                lemma_lex_ends_eof(bs, j, base);
            }
        } else if crate::lytr::lex::is_digit_byte(b) {
            let j = crate::lytr::lex::word_end(bs, i + 1, true);
            if i < j <= bs.len() {
                lemma_lex_ends_eof(bs, j, base);
            }
        } else {
            lemma_lex_ends_eof(bs, i + 1, base);
        }
        if let Ok(s) = lytr_lex_from(bs, i, base) {
            if s.len() > 0 {
                assert(s.last() == s[s.len() - 1]);
            }
        }
    }
}

/// Where the body starts after the edition line `lytr/0.1` and its line break.
fn strip_edition(b: &[u8]) -> (r: Result<usize, LytrError>)
    ensures
        match (r, edition_sp(b@)) {
            (Ok(k), Ok(j)) => k == j,
            (Err(e), Err(x)) => e@ == x,
            _ => false,
        },
{
    proof {
        reveal_strlit("lytr/0.1");
        assert(ascii(EDITION@).len() == 8);
    }
    let n = b.len();
    if !(n >= 8 && crate::lytr::lex::bytes_are(b, 0, 8, EDITION)) {
        proof {
            if n >= 8 {
                assert(b@.take(8) =~= b@.subrange(0, 8));
            }
        }
        return Err(LytrError::Syntax {
            code: "E_LYTR_HEADER",
            span: Span::new(0, if n < 12 { n } else { 12 }),
            message: string_of("expected `lytr/0.1` at start of file"),
            fix_hint: string_of("first line must be lytr/0.1"),
        });
    }
    assert(b@.take(8) =~= b@.subrange(0, 8));
    if n >= 10 && b[8] == 13 && b[9] == 10 {
        Ok(10)
    } else if n >= 9 && b[8] == 10 {
        Ok(9)
    } else {
        Err(LytrError::Syntax {
            code: "E_LYTR_HEADER",
            span: Span::new(0, 8),
            message: string_of("newline required after lytr/0.1"),
            fix_hint: string_of("use a newline after the edition line"),
        })
    }
}

/// Parses a LYTR 0.1 file.
pub fn parse_lytr_program(full_src: &str) -> (r: Result<Program, LytrError>)
    ensures
        match (r, lytr_parse_spec(full_src.spec_bytes())) {
            (Ok(p), Ok(v)) => p@ == v,
            (Err(e), Err(x)) => e@ == x,
            _ => false,
        },
{
    let b = full_src.as_bytes();
    let n = b.len();
    assert(b@.len() == n);
    let start = strip_edition(b)?;
    let tokens = lex_bytes(b, start, 0)?;
    proof {
        lemma_lex_ends_eof(b@, start as int, 0);
    }
    let mut src: Vec<u8> = Vec::new();
    let mut k: usize = 0;
    while k < n
        invariant
            k <= n == b@.len(),
            src@ == b@.take(k as int),
        decreases n - k,
    {
        src.push(b[k]);
        assert(b@.take(k + 1) == b@.take(k as int).push(b@[k as int]));
        k = k + 1;
    }
    assert(b@.take(n as int) == b@);
    let mut p = Parser::new(tokens, src);
    p.parse_program()
}

} // verus!
