//! Parser for `lir/1` programs: header line, one source, then `|`-separated stages.
//! Predicates (`or` < `&` < `not` < atoms) and `map` expressions (`add`/`sub` < `mul`/`div`/`mod`
//! < `neg` < atoms) are left-associative with the usual precedence.

use vstd::prelude::*;
use crate::ast::{
    expr_span_of, pred_span_of, CmpOp, CmpRhs, ElemTy, Expr, LitElem, Predicate, Program,
    ProgramView, ReduceOp, ScanOp, Source, SourceView, Stage,
};
use crate::error::{lir_prose, merge_spec, syntax_err, syntax_error, ErrorView, LirError, Span};
use crate::interp::fits_i32;
use crate::lex::{is_digit, is_ident_start, is_space, lex_chars, lex_from, lex_prose_from, lexemes_view, punct_token, Lexeme, LexemeView, Token, TokenView};
use crate::lex::lemma_lex_shape;
use crate::text::{
    chars_of, lemma_encode_utf8_concat, lemma_utf8_len_at_least, push_str, push_string, string_of,
    utf8_len, utf8_len_of,
};

verus! {

/// Span `s` of the body moved to the position of the body in the whole text.
pub open spec fn gsp(s: Span, off: int) -> Span {
    Span { start: (s.start + off) as usize, end: (s.end + off) as usize }
}

/// Token at `i` (`Eof` past the end).
pub open spec fn tok_at(t: Seq<LexemeView>, i: int) -> TokenView {
    if 0 <= i < t.len() { t[i].tok } else { TokenView::Eof }
}

/// Span of the token at `i`.
pub open spec fn span_at(t: Seq<LexemeView>, i: int) -> Span {
    if 0 <= i < t.len() { t[i].span } else { Span { start: 0, end: 0 } }
}

/// Whether the token at `i` is the identifier `s`.
pub open spec fn ident_is(t: Seq<LexemeView>, i: int, s: Seq<char>) -> bool {
    tok_at(t, i) matches TokenView::Ident(x) && x == s
}

/// Diagnostic reported where a sub-parse would not advance (never happens; see `lemma_progress_pred`, `lemma_progress_expr` and `lemma_progress_stage`).
pub open spec fn stuck(t: Seq<LexemeView>, i: int) -> ErrorView {
    syntax_err("E_EXPECTED_EOF"@, span_at(t, i))
}

/// `expect_ident`: the identifier at `i`, its global span, and the next position.
pub open spec fn expect_ident_sp(t: Seq<LexemeView>, off: int, i: int) -> Result<(Seq<char>, Span, int), ErrorView> {
    match tok_at(t, i) {
        TokenView::Ident(s) => Ok((s, gsp(span_at(t, i), off), i + 1)),
        _ => Err(syntax_err("E_EXPECTED_IDENT"@, gsp(span_at(t, i), off))),
    }
}

/// `expect_int`: the integer at `i`, its global span, and the next position.
pub open spec fn expect_int_sp(t: Seq<LexemeView>, off: int, i: int) -> Result<(i64, Span, int), ErrorView> {
    match tok_at(t, i) {
        TokenView::Int(v) => Ok((v, gsp(span_at(t, i), off), i + 1)),
        _ => Err(syntax_err("E_EXPECTED_INT"@, gsp(span_at(t, i), off))),
    }
}

/// Whether a token is the wanted `(`, `)` or `,`.
pub open spec fn punct_matches(tk: TokenView, want: TokenView) -> bool {
    (tk is LParen && want is LParen) || (tk is RParen && want is RParen) || (tk is Comma && want is Comma)
}

/// `expect_tok`: position after the wanted punctuation at `i`.
pub open spec fn expect_punct_sp(t: Seq<LexemeView>, off: int, i: int, want: TokenView) -> Result<int, ErrorView> {
    if punct_matches(tok_at(t, i), want) {
        Ok(i + 1)
    } else {
        Err(syntax_err("E_EXPECTED_PUNCT"@, gsp(span_at(t, i), off)))
    }
}

/// Whether `range(start, stop, step)` never reaches `stop`.
pub open spec fn provably_infinite_spec(start: i64, stop: i64, step: i64) -> bool {
    if step == 0 {
        true
    } else if start < stop && step > 0 {
        false
    } else if start > stop && step < 0 {
        false
    } else if start == stop {
        false
    } else {
        true
    }
}

/// Span recorded on a source.
pub open spec fn source_span_of(v: SourceView) -> Span {
    match v {
        SourceView::Input { span, .. } => span,
        SourceView::Range { span, .. } => span,
        SourceView::Lit { span, .. } => span,
    }
}

/// Source at `i`.
pub open spec fn source_sp(t: Seq<LexemeView>, off: int, i: int) -> Result<(SourceView, int), ErrorView> {
    match expect_ident_sp(t, off, i) {
        Err(e) => Err(e),
        Ok((name, span, j)) => if name == "input"@ {
            if tok_at(t, j) is Colon {
                match expect_ident_sp(t, off, j + 1) {
                    Err(e) => Err(e),
                    Ok((tname, _, k)) => if tname == "i32"@ {
                        Ok((SourceView::Input { ty: ElemTy::I32, explicit: true, span }, k))
                    } else if tname == "i64"@ {
                        Ok((SourceView::Input { ty: ElemTy::I64, explicit: true, span }, k))
                    } else if tname == "bool"@ {
                        Ok((SourceView::Input { ty: ElemTy::Bool, explicit: true, span }, k))
                    } else {
                        Err(syntax_err("E_BAD_INPUT_TY"@, span))
                    },
                }
            } else {
                Ok((SourceView::Input { ty: ElemTy::I32, explicit: false, span }, j))
            }
        } else if name == "range"@ {
            range_sp(t, off, j, span)
        } else if name == "lit"@ {
            lit_sp(t, off, j, span)
        } else {
            Err(syntax_err("E_BAD_SOURCE"@, span))
        },
    }
}

/// Arguments of `range(...)` at `i` (after the keyword).
pub open spec fn range_sp(t: Seq<LexemeView>, off: int, i: int, span_start: Span) -> Result<(SourceView, int), ErrorView> {
    match expect_punct_sp(t, off, i, TokenView::LParen) {
        Err(e) => Err(e),
        Ok(j1) => match expect_int_sp(t, off, j1) {
            Err(e) => Err(e),
            Ok((a, _, j2)) => match expect_punct_sp(t, off, j2, TokenView::Comma) {
                Err(e) => Err(e),
                Ok(j3) => match expect_int_sp(t, off, j3) {
                    Err(e) => Err(e),
                    Ok((b, _, j4)) => if tok_at(t, j4) is Comma {
                        match expect_int_sp(t, off, j4 + 1) {
                            Err(e) => Err(e),
                            Ok((s, _, j5)) => match expect_punct_sp(t, off, j5, TokenView::RParen) {
                                Err(e) => Err(e),
                                Ok(j6) => if s == 0 {
                                    Err(syntax_err("E_RANGE_STEP_ZERO"@, span_start))
                                } else if provably_infinite_spec(a, b, s) {
                                    Err(syntax_err("E_RANGE_INFINITE"@, span_start))
                                } else {
                                    let span = merge_spec(span_start, gsp(span_at(t, j5), off));
                                    Ok((SourceView::Range { start: a, stop: b, step: s, span }, j6))
                                },
                            },
                        }
                    } else {
                        match expect_punct_sp(t, off, j4, TokenView::RParen) {
                            Err(e) => Err(e),
                            Ok(j5) => {
                                let step: i64 = if a < b { 1i64 } else if a > b { -1i64 } else { 1i64 };
                                let span = merge_spec(span_start, gsp(span_at(t, j4), off));
                                Ok((SourceView::Range { start: a, stop: b, step, span }, j5))
                            },
                        }
                    },
                },
            },
        },
    }
}

/// One `lit` element at `i`.
pub open spec fn lit_atom_sp(t: Seq<LexemeView>, off: int, i: int) -> Result<LitElem, ErrorView> {
    match tok_at(t, i) {
        TokenView::Int(v) => Ok(if fits_i32(v as int) { LitElem::I32(v as i32) } else { LitElem::I64(v) }),
        TokenView::Ident(s) => if s == "true"@ {
            Ok(LitElem::Bool(true))
        } else if s == "false"@ {
            Ok(LitElem::Bool(false))
        } else {
            Err(syntax_err("E_LIT_ATOM"@, gsp(span_at(t, i), off)))
        },
        _ => Err(syntax_err("E_LIT_ATOM"@, gsp(span_at(t, i), off))),
    }
}

/// Comma-separated `lit` elements from `i`; stops before the first token that is not a comma.
pub open spec fn lit_elems_sp(t: Seq<LexemeView>, off: int, i: int) -> Result<(Seq<LitElem>, int), ErrorView>
    decreases t.len() - i,
{
    if i < 0 || i >= t.len() {
        Err(syntax_err("E_LIT_ATOM"@, gsp(span_at(t, i), off)))
    } else {
        match lit_atom_sp(t, off, i) {
            Err(e) => Err(e),
            Ok(el) => if tok_at(t, i + 1) is Comma {
                if tok_at(t, i + 2) is RParen {
                    Err(syntax_err("E_TRAILING_COMMA"@, gsp(span_at(t, i + 2), off)))
                } else {
                    match lit_elems_sp(t, off, i + 2) {
                        Err(e) => Err(e),
                        Ok((rest, k)) => Ok((seq![el] + rest, k)),
                    }
                }
            } else {
                Ok((seq![el], i + 1))
            },
        }
    }
}

/// Arguments of `lit(...)` at `i` (after the keyword).
pub open spec fn lit_sp(t: Seq<LexemeView>, off: int, i: int, span_start: Span) -> Result<(SourceView, int), ErrorView> {
    match expect_punct_sp(t, off, i, TokenView::LParen) {
        Err(e) => Err(e),
        Ok(j) => if tok_at(t, j) is RParen {
            Ok((SourceView::Lit { elems: Seq::empty(), span: merge_spec(span_start, gsp(span_at(t, j), off)) }, j + 1))
        } else {
            match lit_elems_sp(t, off, j) {
                Err(e) => Err(e),
                Ok((elems, k)) => match expect_punct_sp(t, off, k, TokenView::RParen) {
                    Err(e) => Err(e),
                    Ok(k2) => Ok((SourceView::Lit { elems, span: merge_spec(span_start, gsp(span_at(t, k), off)) }, k2)),
                },
            }
        }
    }
}

/// Right-hand side of a comparison at `i`.
pub open spec fn compare_rhs_sp(t: Seq<LexemeView>, off: int, i: int, op: CmpOp, op_span: Span) -> Result<(CmpRhs, int), ErrorView> {
    match tok_at(t, i) {
        TokenView::Int(v) => Ok((CmpRhs::Int(v), i + 1)),
        TokenView::Ident(s) => if s == "true"@ || s == "false"@ {
            if op != CmpOp::Eq {
                Err(syntax_err("E_BOOL_CMP"@, op_span))
            } else {
                Ok((CmpRhs::Bool(s == "true"@), i + 1))
            }
        } else {
            Err(syntax_err("E_CMP_RHS"@, op_span))
        },
        _ => Err(syntax_err("E_CMP_RHS"@, gsp(span_at(t, i), off))),
    }
}

/// Comparison operator named `s`.
pub open spec fn compare_op_of(s: Seq<char>) -> Option<CmpOp> {
    if s == "eq"@ {
        Some(CmpOp::Eq)
    } else if s == "lt"@ {
        Some(CmpOp::Lt)
    } else if s == "le"@ {
        Some(CmpOp::Le)
    } else if s == "gt"@ {
        Some(CmpOp::Gt)
    } else if s == "ge"@ {
        Some(CmpOp::Ge)
    } else {
        None
    }
}

/// A predicate (`or` level) at `i`.
pub open spec fn pred_or_sp(t: Seq<LexemeView>, off: int, i: int) -> Result<(Predicate, int), ErrorView>
    decreases t.len() - i, 3int,
{
    match pred_and_sp(t, off, i) {
        Err(e) => Err(e),
        Ok((left, j)) => if i < j <= t.len() { or_rest_sp(t, off, left, j) } else { Err(stuck(t, i)) },
    }
}

/// Continuation of an `or` chain whose operands so far form `left`.
pub open spec fn or_rest_sp(t: Seq<LexemeView>, off: int, left: Predicate, j: int) -> Result<(Predicate, int), ErrorView>
    decreases t.len() - j, 0int,
{
    if ident_is(t, j, "or"@) && 0 <= j < t.len() {
        match pred_and_sp(t, off, j + 1) {
            Err(e) => Err(e),
            Ok((right, k)) => if j < k <= t.len() {
                or_rest_sp(
                    t,
                    off,
                    Predicate::Or {
                        left: Box::new(left),
                        right: Box::new(right),
                        span: merge_spec(pred_span_of(left), pred_span_of(right)),
                    },
                    k,
                )
            } else {
                Err(stuck(t, j))
            },
        }
    } else {
        Ok((left, j))
    }
}

/// A predicate at `&` level at `i`.
pub open spec fn pred_and_sp(t: Seq<LexemeView>, off: int, i: int) -> Result<(Predicate, int), ErrorView>
    decreases t.len() - i, 2int,
{
    match pred_not_sp(t, off, i) {
        Err(e) => Err(e),
        Ok((left, j)) => if i < j <= t.len() { and_rest_sp(t, off, left, j) } else { Err(stuck(t, i)) },
    }
}

/// Continuation of an `&` chain whose operands so far form `left`.
pub open spec fn and_rest_sp(t: Seq<LexemeView>, off: int, left: Predicate, j: int) -> Result<(Predicate, int), ErrorView>
    decreases t.len() - j, 0int,
{
    if tok_at(t, j) is Amp && 0 <= j < t.len() {
        match pred_not_sp(t, off, j + 1) {
            Err(e) => Err(e),
            Ok((right, k)) => if j < k <= t.len() {
                and_rest_sp(
                    t,
                    off,
                    Predicate::And {
                        left: Box::new(left),
                        right: Box::new(right),
                        span: merge_spec(pred_span_of(left), pred_span_of(right)),
                    },
                    k,
                )
            } else {
                Err(stuck(t, j))
            },
        }
    } else {
        Ok((left, j))
    }
}

/// A predicate at `not` level at `i`.
pub open spec fn pred_not_sp(t: Seq<LexemeView>, off: int, i: int) -> Result<(Predicate, int), ErrorView>
    decreases t.len() - i, 1int,
{
    if ident_is(t, i, "not"@) && 0 <= i < t.len() {
        let sp = gsp(span_at(t, i), off);
        match pred_not_sp(t, off, i + 1) {
            Err(e) => Err(e),
            Ok((inner, k)) => Ok((Predicate::Not { inner: Box::new(inner), span: merge_spec(sp, pred_span_of(inner)) }, k)),
        }
    } else {
        pred_primary_sp(t, off, i)
    }
}

/// A parenthesized predicate or an atom at `i`.
pub open spec fn pred_primary_sp(t: Seq<LexemeView>, off: int, i: int) -> Result<(Predicate, int), ErrorView>
    decreases t.len() - i, 0int,
{
    if tok_at(t, i) is LParen && 0 <= i < t.len() {
        match pred_or_sp(t, off, i + 1) {
            Err(e) => Err(e),
            Ok((p, k)) => match expect_punct_sp(t, off, k, TokenView::RParen) {
                Err(e) => Err(e),
                Ok(k2) => Ok((p, k2)),
            },
        }
    } else {
        match expect_ident_sp(t, off, i) {
            Err(e) => Err(e),
            Ok((name, span, j)) => if name == "even"@ {
                Ok((Predicate::Even { span }, j))
            } else if name == "odd"@ {
                Ok((Predicate::Odd { span }, j))
            } else if compare_op_of(name) is Some {
                let op = compare_op_of(name)->0;
                match compare_rhs_sp(t, off, j, op, span) {
                    Err(e) => Err(e),
                    Ok((rhs, k)) => Ok((Predicate::Cmp { op, rhs, span }, k)),
                }
            } else {
                Err(syntax_err("E_PRED_ATOM"@, span))
            },
        }
    }
}

/// Binary operators of `map` expressions.
pub enum BinTag {
    Add,
    Sub,
    Mul,
    Div,
    Mod,
}

/// Binary expression node for an operator.
pub open spec fn bin_expr(op: BinTag, l: Expr, r: Expr) -> Expr {
    let span = merge_spec(expr_span_of(l), expr_span_of(r));
    match op {
        BinTag::Add => Expr::Add { left: Box::new(l), right: Box::new(r), span },
        BinTag::Sub => Expr::Sub { left: Box::new(l), right: Box::new(r), span },
        BinTag::Mul => Expr::Mul { left: Box::new(l), right: Box::new(r), span },
        BinTag::Div => Expr::Div { left: Box::new(l), right: Box::new(r), span },
        BinTag::Mod => Expr::Mod { left: Box::new(l), right: Box::new(r), span },
    }
}

/// An expression (`add`/`sub` level) at `i`.
pub open spec fn expr_add_sp(t: Seq<LexemeView>, off: int, i: int) -> Result<(Expr, int), ErrorView>
    decreases t.len() - i, 3int,
{
    match expr_mul_sp(t, off, i) {
        Err(e) => Err(e),
        Ok((left, j)) => if i < j <= t.len() { add_rest_sp(t, off, left, j) } else { Err(stuck(t, i)) },
    }
}

/// Continuation of an `add`/`sub` chain.
pub open spec fn add_rest_sp(t: Seq<LexemeView>, off: int, left: Expr, j: int) -> Result<(Expr, int), ErrorView>
    decreases t.len() - j, 0int,
{
    if (ident_is(t, j, "add"@) || ident_is(t, j, "sub"@)) && 0 <= j < t.len() {
        match expr_mul_sp(t, off, j + 1) {
            Err(e) => Err(e),
            Ok((right, k)) => if j < k <= t.len() {
                add_rest_sp(t, off, bin_expr(if ident_is(t, j, "add"@) { BinTag::Add } else { BinTag::Sub }, left, right), k)
            } else {
                Err(stuck(t, j))
            },
        }
    } else {
        Ok((left, j))
    }
}

/// An expression at `mul`/`div`/`mod` level at `i`.
pub open spec fn expr_mul_sp(t: Seq<LexemeView>, off: int, i: int) -> Result<(Expr, int), ErrorView>
    decreases t.len() - i, 2int,
{
    match expr_unary_sp(t, off, i) {
        Err(e) => Err(e),
        Ok((left, j)) => if i < j <= t.len() { mul_rest_sp(t, off, left, j) } else { Err(stuck(t, i)) },
    }
}

/// Name of the multiplicative operator at `j`, if any.
pub open spec fn mul_op_at(t: Seq<LexemeView>, j: int) -> Option<BinTag> {
    if ident_is(t, j, "mul"@) {
        Some(BinTag::Mul)
    } else if ident_is(t, j, "div"@) {
        Some(BinTag::Div)
    } else if ident_is(t, j, "mod"@) {
        Some(BinTag::Mod)
    } else {
        None
    }
}

/// Continuation of a `mul`/`div`/`mod` chain.
pub open spec fn mul_rest_sp(t: Seq<LexemeView>, off: int, left: Expr, j: int) -> Result<(Expr, int), ErrorView>
    decreases t.len() - j, 0int,
{
    if mul_op_at(t, j) is Some && 0 <= j < t.len() {
        match expr_unary_sp(t, off, j + 1) {
            Err(e) => Err(e),
            Ok((right, k)) => if j < k <= t.len() {
                mul_rest_sp(t, off, bin_expr(mul_op_at(t, j)->0, left, right), k)
            } else {
                Err(stuck(t, j))
            },
        }
    } else {
        Ok((left, j))
    }
}

/// An expression at `neg` level at `i`.
pub open spec fn expr_unary_sp(t: Seq<LexemeView>, off: int, i: int) -> Result<(Expr, int), ErrorView>
    decreases t.len() - i, 1int,
{
    if ident_is(t, i, "neg"@) && 0 <= i < t.len() {
        let sp = gsp(span_at(t, i), off);
        match expr_unary_sp(t, off, i + 1) {
            Err(e) => Err(e),
            Ok((inner, k)) => Ok((Expr::Neg { inner: Box::new(inner), span: merge_spec(sp, expr_span_of(inner)) }, k)),
        }
    } else {
        expr_primary_sp(t, off, i)
    }
}

/// `.`, an integer, `square`, or a parenthesized expression at `i`.
pub open spec fn expr_primary_sp(t: Seq<LexemeView>, off: int, i: int) -> Result<(Expr, int), ErrorView>
    decreases t.len() - i, 0int,
{
    let sp = gsp(span_at(t, i), off);
    match tok_at(t, i) {
        TokenView::Dot => Ok((Expr::Dot { span: sp }, i + 1)),
        TokenView::Int(v) => Ok((Expr::Lit { v, span: sp }, i + 1)),
        TokenView::Ident(s) => if s == "square"@ {
            Ok((Expr::Mul { left: Box::new(Expr::Dot { span: sp }), right: Box::new(Expr::Dot { span: sp }), span: sp }, i + 1))
        } else {
            Err(syntax_err("E_EXPR_PRIMARY"@, sp))
        },
        TokenView::LParen => if 0 <= i < t.len() {
            match expr_add_sp(t, off, i + 1) {
                Err(e) => Err(e),
                Ok((e, k)) => match expect_punct_sp(t, off, k, TokenView::RParen) {
                    Err(x) => Err(x),
                    Ok(k2) => Ok((e, k2)),
                },
            }
        } else {
            Err(syntax_err("E_EXPR_PRIMARY"@, sp))
        },
        _ => Err(syntax_err("E_EXPR_PRIMARY"@, sp)),
    }
}

/// A stage at `i`.
pub open spec fn stage_sp(t: Seq<LexemeView>, off: int, i: int) -> Result<(Stage, int), ErrorView> {
    match expect_ident_sp(t, off, i) {
        Err(e) => Err(e),
        Ok((name, span, j)) => if name == "filter"@ {
            match pred_or_sp(t, off, j) {
                Err(e) => Err(e),
                Ok((pred, k)) => Ok((Stage::Filter { pred, span }, k)),
            }
        } else if name == "map"@ {
            match expr_add_sp(t, off, j) {
                Err(e) => Err(e),
                Ok((expr, k)) => Ok((Stage::MapEach { expr, span }, k)),
            }
        } else if name == "scan"@ {
            match expect_int_sp(t, off, j) {
                Err(e) => Err(e),
                Ok((init, _, j2)) => match expect_punct_sp(t, off, j2, TokenView::Comma) {
                    Err(e) => Err(e),
                    Ok(j3) => match expect_ident_sp(t, off, j3) {
                        Err(e) => Err(e),
                        Ok((opname, _, j4)) => if opname == "add"@ {
                            Ok((Stage::Scan { init, op: ScanOp::Add, span }, j4))
                        } else if opname == "sub"@ {
                            Ok((Stage::Scan { init, op: ScanOp::Sub, span }, j4))
                        } else if opname == "mul"@ {
                            Ok((Stage::Scan { init, op: ScanOp::Mul, span }, j4))
                        } else {
                            Err(syntax_err("E_SCAN_OP"@, span))
                        },
                    },
                },
            }
        } else if name == "reduce"@ {
            match expect_ident_sp(t, off, j) {
                Err(e) => Err(e),
                Ok((rname, _, j2)) => if rname == "sum"@ {
                    Ok((Stage::Reduce { op: ReduceOp::Sum, span }, j2))
                } else if rname == "prod"@ {
                    Ok((Stage::Reduce { op: ReduceOp::Prod, span }, j2))
                } else if rname == "count"@ {
                    Ok((Stage::Reduce { op: ReduceOp::Count, span }, j2))
                } else if rname == "min"@ {
                    Ok((Stage::Reduce { op: ReduceOp::Min, span }, j2))
                } else if rname == "max"@ {
                    Ok((Stage::Reduce { op: ReduceOp::Max, span }, j2))
                } else {
                    Err(syntax_err("E_REDUCE_OP"@, span))
                },
            }
        } else if name == "take"@ || name == "drop"@ {
            match expect_int_sp(t, off, j) {
                Err(e) => Err(e),
                Ok((n, nsp, j2)) => if n < 0 || n > u32::MAX {
                    Err(syntax_err(if name == "take"@ { "E_TAKE_RANGE"@ } else { "E_DROP_RANGE"@ }, nsp))
                } else if name == "take"@ {
                    Ok((Stage::Take { n: n as u32, span }, j2))
                } else {
                    Ok((Stage::Drop { n: n as u32, span }, j2))
                },
            }
        } else if name == "id"@ {
            Ok((Stage::Id { span }, j))
        } else {
            Err(syntax_err("E_BAD_STAGE"@, span))
        },
    }
}

/// Stages separated by `|` starting at `i`; stops before the first token after a stage
/// that is not `|`.
#[verifier::opaque]
pub open spec fn stages_sp(t: Seq<LexemeView>, off: int, i: int) -> Result<(Seq<Stage>, int), ErrorView>
    decreases t.len() - i,
{
    match stage_sp(t, off, i) {
        Err(e) => Err(e),
        Ok((st, j)) => if tok_at(t, j) is Pipe {
            if i < j + 1 <= t.len() {
                match stages_sp(t, off, j + 1) {
                    Err(e) => Err(e),
                    Ok((rest, k)) => Ok((seq![st] + rest, k)),
                }
            } else {
                Err(stuck(t, i))
            }
        } else {
            Ok((seq![st], j))
        },
    }
}

/// Source, `|`, stages, end of input — over the tokens of a body placed at offset `off`.
pub open spec fn pipeline_sp(t: Seq<LexemeView>, off: int) -> Result<(SourceView, Seq<Stage>), ErrorView> {
    match source_sp(t, off, 0) {
        Err(e) => Err(e),
        Ok((src, i)) => if !(tok_at(t, i) is Pipe) {
            Err(syntax_err("E_EXPECTED_STAGE"@, gsp(span_at(t, i), off)))
        } else {
            match stages_sp(t, off, i + 1) {
                Err(e) => Err(e),
                Ok((stages, k)) => if !(tok_at(t, k) is Eof) {
                    Err(syntax_err("E_EXPECTED_EOF"@, gsp(span_at(t, k), off)))
                } else {
                    Ok((src, stages))
                },
            }
        }
    }
}



/// The text without a leading byte-order mark (U+FEFF).
pub open spec fn without_bom(cs: Seq<char>) -> Seq<char> {
    if cs.len() > 0 && cs[0] == '\u{feff}' { cs.drop_first() } else { cs }
}

/// Index of the first `\n` at or after `i`, or the length of the text.
pub open spec fn newline_from(cs: Seq<char>, i: int) -> int
    decreases cs.len() - i,
{
    if 0 <= i < cs.len() && cs[i] != '\n' { newline_from(cs, i + 1) } else { i }
}

/// `s` without its trailing carriage returns.
pub open spec fn trim_end_cr(s: Seq<char>) -> Seq<char>
    decreases s.len(),
{
    if s.len() > 0 && s.last() == '\r' { trim_end_cr(s.drop_last()) } else { s }
}

/// `s` without its leading carriage returns.
pub open spec fn trim_start_cr(s: Seq<char>) -> Seq<char>
    decreases s.len(),
{
    if s.len() > 0 && s[0] == '\r' { trim_start_cr(s.drop_first()) } else { s }
}

/// The header line: the text up to the first `\n`, without trailing carriage returns.
pub open spec fn header_line(t: Seq<char>) -> Seq<char> {
    trim_end_cr(t.take(newline_from(t, 0)))
}

/// The body: the text after the first `\n`, without leading carriage returns.
pub open spec fn body_text(t: Seq<char>) -> Seq<char> {
    let nl = newline_from(t, 0);
    if nl < t.len() { trim_start_cr(t.skip(nl + 1)) } else { Seq::empty() }
}

/// Byte offset just after the first `\n` (the whole length when there is none).
pub open spec fn body_offset(t: Seq<char>) -> int {
    let nl = newline_from(t, 0);
    if nl < t.len() { utf8_len(t.take(nl)) + 1 as int } else { utf8_len(t) as int }
}

/// End of the `E_HEADER` span: the byte length of the header line, at least 1.
pub open spec fn header_span_end(t: Seq<char>) -> int {
    let n = utf8_len(header_line(t)) as int;
    if n < 1 { 1 } else { n }
}

/// Outcome of parsing a whole `lir/1` program text.
pub open spec fn parse_program_spec(src: Seq<char>) -> Result<ProgramView, ErrorView> {
    let t = without_bom(src);
    if header_line(t) != "lir/1"@ {
        Err(syntax_err("E_HEADER"@, Span { start: 0, end: header_span_end(t) as usize }))
    } else {
        match lex_from(body_text(t), 0) {
            Err(e) => Err(e),
            Ok(toks) => match pipeline_sp(toks, body_offset(t)) {
                Err(e) => Err(e),
                Ok((source, stages)) => Ok(ProgramView {
                    span: Span { start: 0, end: (body_offset(t) + utf8_len(body_text(t))) as usize },
                    source,
                    stages,
                }),
            },
        }
    }
}

/// The end of a pipeline once its stages are parsed: the input must be used up.
pub open spec fn finish_pipeline(t: Seq<LexemeView>, off: int, src: SourceView, r: Result<(Seq<Stage>, int), ErrorView>) -> Result<(SourceView, Seq<Stage>), ErrorView> {
    match r {
        Err(e) => Err(e),
        Ok((stages, k)) => if !(tok_at(t, k) is Eof) {
            Err(syntax_err("E_EXPECTED_EOF"@, gsp(span_at(t, k), off)))
        } else {
            Ok((src, stages))
        },
    }
}

/// `pre` in front of the stages of a successful result.
pub open spec fn prepend_stages(pre: Seq<Stage>, r: Result<(Seq<Stage>, int), ErrorView>) -> Result<(Seq<Stage>, int), ErrorView> {
    match r {
        Ok((s, k)) => Ok((pre + s, k)),
        Err(e) => Err(e),
    }
}

/// A successful parse ends within `lo..=hi`.
pub open spec fn ends_within<T>(r: Result<(T, int), ErrorView>, lo: int, hi: int) -> bool {
    r matches Ok((_, j)) ==> lo <= j <= hi
}

/// Every successful predicate parse consumes at least one token and stays within the token sequence.
pub proof fn lemma_progress_pred(t: Seq<LexemeView>, off: int, i: int)
    requires
        0 <= i <= t.len(),
    ensures
        ends_within(pred_primary_sp(t, off, i), i + 1, t.len() as int),
        ends_within(pred_not_sp(t, off, i), i + 1, t.len() as int),
        ends_within(pred_and_sp(t, off, i), i + 1, t.len() as int),
        ends_within(pred_or_sp(t, off, i), i + 1, t.len() as int),
    decreases t.len() - i, 1int,
{
    if i < t.len() {
        lemma_progress_pred(t, off, i + 1);
        if let Ok((left, j)) = pred_not_sp(t, off, i) {
            if i < j <= t.len() {
                lemma_and_rest(t, off, left, j);
            }
        }
        if let Ok((left, j)) = pred_and_sp(t, off, i) {
            if i < j <= t.len() {
                lemma_or_rest(t, off, left, j);
            }
        }
    }
}

/// The continuation of an `or` chain never moves backwards.
pub proof fn lemma_or_rest(t: Seq<LexemeView>, off: int, l: Predicate, j: int)
    requires
        0 <= j <= t.len(),
    ensures
        ends_within(or_rest_sp(t, off, l, j), j, t.len() as int),
    decreases t.len() - j, 0int,
{
    if ident_is(t, j, "or"@) && 0 <= j < t.len() {
        lemma_progress_pred(t, off, j + 1);
        if let Ok((right, k)) = pred_and_sp(t, off, j + 1) {
            if j < k <= t.len() {
                lemma_or_rest(t, off, Predicate::Or {
                    left: Box::new(l),
                    right: Box::new(right),
                    span: merge_spec(pred_span_of(l), pred_span_of(right)),
                }, k);
            }
        }
    }
}

/// The continuation of an `&` chain never moves backwards.
pub proof fn lemma_and_rest(t: Seq<LexemeView>, off: int, l: Predicate, j: int)
    requires
        0 <= j <= t.len(),
    ensures
        ends_within(and_rest_sp(t, off, l, j), j, t.len() as int),
    decreases t.len() - j, 0int,
{
    if tok_at(t, j) is Amp && 0 <= j < t.len() {
        lemma_progress_pred(t, off, j + 1);
        if let Ok((right, k)) = pred_not_sp(t, off, j + 1) {
            if j < k <= t.len() {
                lemma_and_rest(t, off, Predicate::And {
                    left: Box::new(l),
                    right: Box::new(right),
                    span: merge_spec(pred_span_of(l), pred_span_of(right)),
                }, k);
            }
        }
    }
}

/// Every successful expression parse consumes at least one token and stays within the token sequence.
pub proof fn lemma_progress_expr(t: Seq<LexemeView>, off: int, i: int)
    requires
        0 <= i <= t.len(),
    ensures
        ends_within(expr_primary_sp(t, off, i), i + 1, t.len() as int),
        ends_within(expr_unary_sp(t, off, i), i + 1, t.len() as int),
        ends_within(expr_mul_sp(t, off, i), i + 1, t.len() as int),
        ends_within(expr_add_sp(t, off, i), i + 1, t.len() as int),
    decreases t.len() - i, 1int,
{
    if i < t.len() {
        lemma_progress_expr(t, off, i + 1);
        if let Ok((left, j)) = expr_unary_sp(t, off, i) {
            if i < j <= t.len() {
                lemma_mul_rest(t, off, left, j);
            }
        }
        if let Ok((left, j)) = expr_mul_sp(t, off, i) {
            if i < j <= t.len() {
                lemma_add_rest(t, off, left, j);
            }
        }
    }
}

/// The continuation of an `add`/`sub` chain never moves backwards.
pub proof fn lemma_add_rest(t: Seq<LexemeView>, off: int, l: Expr, j: int)
    requires
        0 <= j <= t.len(),
    ensures
        ends_within(add_rest_sp(t, off, l, j), j, t.len() as int),
    decreases t.len() - j, 0int,
{
    if (ident_is(t, j, "add"@) || ident_is(t, j, "sub"@)) && 0 <= j < t.len() {
        lemma_progress_expr(t, off, j + 1);
        if let Ok((right, k)) = expr_mul_sp(t, off, j + 1) {
            if j < k <= t.len() {
                lemma_add_rest(t, off, bin_expr(if ident_is(t, j, "add"@) { BinTag::Add } else { BinTag::Sub }, l, right), k);
            }
        }
    }
}

/// The continuation of a `mul`/`div`/`mod` chain never moves backwards.
pub proof fn lemma_mul_rest(t: Seq<LexemeView>, off: int, l: Expr, j: int)
    requires
        0 <= j <= t.len(),
    ensures
        ends_within(mul_rest_sp(t, off, l, j), j, t.len() as int),
    decreases t.len() - j, 0int,
{
    if mul_op_at(t, j) is Some && 0 <= j < t.len() {
        lemma_progress_expr(t, off, j + 1);
        if let Ok((right, k)) = expr_unary_sp(t, off, j + 1) {
            if j < k <= t.len() {
                lemma_mul_rest(t, off, bin_expr(mul_op_at(t, j)->0, l, right), k);
            }
        }
    }
}


/// A successful stage parse consumes at least one token and stays within the token sequence.
pub proof fn lemma_progress_stage(t: Seq<LexemeView>, off: int, i: int)
    requires
        0 <= i <= t.len(),
    ensures
        ends_within(stage_sp(t, off, i), i + 1, t.len() as int),
{
    if i < t.len() {
        lemma_progress_pred(t, off, i + 1);
        lemma_progress_expr(t, off, i + 1);
    }
}

/// Whether `s` holds exactly the characters of `lit`.
fn str_is(s: &String, lit: &str) -> (b: bool)
    ensures
        b == (s@ == lit@),
{
    *s == string_of(lit)
}

/// A message made of `pre`, then `name`, then `post`.
fn msg3(pre: &str, name: &String, post: &str) -> (m: String)
    ensures
        m@ == pre@ + name@ + post@,
{
    let mut m = string_of(pre);
    push_string(&mut m, name);
    push_str(&mut m, post);
    m
}

/// Span recorded on a predicate.
fn pred_span(p: &Predicate) -> (r: Span)
    ensures
        r == pred_span_of(*p),
{
    match p {
        Predicate::Or { span, .. } => *span,
        Predicate::And { span, .. } => *span,
        Predicate::Not { span, .. } => *span,
        Predicate::Even { span } => *span,
        Predicate::Odd { span } => *span,
        Predicate::Cmp { span, .. } => *span,
    }
}

/// Span recorded on an expression.
fn expr_span(e: &Expr) -> (r: Span)
    ensures
        r == expr_span_of(*e),
{
    match e {
        Expr::Add { span, .. } => *span,
        Expr::Sub { span, .. } => *span,
        Expr::Mul { span, .. } => *span,
        Expr::Div { span, .. } => *span,
        Expr::Mod { span, .. } => *span,
        Expr::Neg { span, .. } => *span,
        Expr::Dot { span } => *span,
        Expr::Lit { span, .. } => *span,
    }
}

/// `map` expressions are kept as parsed.
fn desugar_map_expr(e: Expr) -> (r: Expr)
    ensures
        r == e,
{
    e
}

fn provably_infinite(start: i64, stop: i64, step: i64) -> (b: bool)
    ensures
        b == provably_infinite_spec(start, stop, step),
{
    if step == 0 {
        return true;
    }
    if start < stop && step > 0 {
        return false;
    }
    if start > stop && step < 0 {
        return false;
    }
    if start == stop {
        return false;
    }
    true
}

fn primary_expr_error(sp: Span) -> (e: LirError)
    ensures
        e@ == syntax_err("E_EXPR_PRIMARY"@, sp),
        parse_prose_ok(e),
{
    proof {
        lemma_parse_prose();
    }
    syntax_error(
        "E_EXPR_PRIMARY",
        sp,
        string_of("expected `.`, integer, square, or `(`"),
        "In map, use `.` for the current element, e.g. `mul . .` or `square`.",
    )
}

struct Parser {
    toks: Vec<Lexeme>,
    i: usize,
    global_off: usize,
}

/// Relates a parser step to its specification: the same value and the parser moved to the
/// specified position, or the specified diagnostic.
spec fn stepped<T>(r: Result<T, LirError>, s: Result<(T, int), ErrorView>, after: Parser, before: Parser) -> bool {
    match (r, s) {
        (Ok(x), Ok((y, j))) => x == y && after.moved_from(before, j),
        (Err(e), Err(v)) => e@ == v,
        _ => false,
    }
}

impl Parser {
    spec fn t(self) -> Seq<LexemeView> {
        lexemes_view(self.toks@)
    }

    spec fn off(self) -> int {
        self.global_off as int
    }

    spec fn wf(self) -> bool {
        &&& self.toks@.len() >= 1
        &&& self.i < self.toks@.len()
        &&& self.toks@.last().tok is Eof
        &&& forall|k: int| 0 <= k < self.toks@.len() ==>
                (#[trigger] self.toks@[k]).span.start <= self.toks@[k].span.end
                && self.toks@[k].span.end + self.global_off <= usize::MAX
    }

    spec fn moved_from(self, before: Parser, j: int) -> bool {
        &&& self.toks@ == before.toks@
        &&& self.global_off == before.global_off
        &&& self.i == j
        &&& self.wf()
    }

    fn gspan(&self, s: Span) -> (r: Span)
        requires
            s.start <= s.end,
            s.end + self.global_off <= usize::MAX,
        ensures
            r == gsp(s, self.off()),
    {
        Span::new(s.start + self.global_off, s.end + self.global_off)
    }

    fn cur(&self) -> (r: &Lexeme)
        requires
            self.wf(),
        ensures
            *r == self.toks@[self.i as int],
            r@ == self.t()[self.i as int],
    {
        &self.toks[self.i]
    }

    fn cur_gspan(&self) -> (r: Span)
        requires
            self.wf(),
        ensures
            r == gsp(span_at(self.t(), self.i as int), self.off()),
    {
        let s = self.toks[self.i].span;
        assert(self.toks@[self.i as int].span.start <= self.toks@[self.i as int].span.end);
        self.gspan(s)
    }

    fn bump(&mut self)
        requires
            old(self).wf(),
            !(old(self).toks@[old(self).i as int].tok is Eof),
        ensures
            final(self).moved_from(*old(self), old(self).i + 1),
    {
        let n = self.toks.len();
        assert(self.i != n - 1);
        self.i = self.i + 1;
    }

    fn is_eof(&self) -> (b: bool)
        requires
            self.wf(),
        ensures
            b == (tok_at(self.t(), self.i as int) is Eof),
    {
        matches!(self.cur().tok, Token::Eof)
    }

    fn match_pipe(&mut self) -> (b: bool)
        requires
            old(self).wf(),
        ensures
            b == (tok_at(old(self).t(), old(self).i as int) is Pipe),
            final(self).moved_from(*old(self), if b { old(self).i + 1 } else { old(self).i as int }),
    {
        if matches!(self.cur().tok, Token::Pipe) {
            self.bump();
            true
        } else {
            false
        }
    }

    fn cur_ident_is(&self, s: &str) -> (b: bool)
        requires
            self.wf(),
        ensures
            b == ident_is(self.t(), self.i as int, s@),
    {
        match &self.cur().tok {
            Token::Ident(x) => str_is(x, s),
            _ => false,
        }
    }

    fn expect_ident(&mut self) -> (r: Result<(String, Span), LirError>)
        requires
            old(self).wf(),
        ensures
            match (r, expect_ident_sp(old(self).t(), old(self).off(), old(self).i as int)) {
                (Ok((s, sp)), Ok((s2, sp2, j))) => s@ == s2 && sp == sp2 && final(self).moved_from(*old(self), j),
                (Err(e), Err(v)) => e@ == v,
                _ => false,
            },
            r matches Err(x) ==> parse_prose_ok(x),
    {
        proof {
            lemma_parse_prose();
        }
        let sp = self.cur_gspan();
        match &self.cur().tok {
            Token::Ident(s) => {
                let name = s.clone();
                self.bump();
                Ok((name, sp))
            },
            _ => {
                Err(syntax_error(
                    "E_EXPECTED_IDENT",
                    sp,
                    string_of("expected identifier"),
                    "Use a keyword or name allowed by the LIR v1 grammar.",
                ))
            },
        }
    }

    fn expect_int(&mut self) -> (r: Result<(i64, Span), LirError>)
        requires
            old(self).wf(),
        ensures
            match (r, expect_int_sp(old(self).t(), old(self).off(), old(self).i as int)) {
                (Ok((v, sp)), Ok((v2, sp2, j))) => v == v2 && sp == sp2 && final(self).moved_from(*old(self), j),
                (Err(e), Err(x)) => e@ == x,
                _ => false,
            },
            r matches Err(x) ==> parse_prose_ok(x),
    {
        proof {
            lemma_parse_prose();
        }
        let sp = self.cur_gspan();
        match self.cur().tok {
            Token::Int(v) => {
                self.bump();
                Ok((v, sp))
            },
            _ => Err(syntax_error("E_EXPECTED_INT", sp, string_of("expected integer literal"), "Provide a decimal integer.")),
        }
    }

    fn expect_tok(&mut self, want: Token, human: &str) -> (r: Result<(), LirError>)
        requires
            old(self).wf(),
        ensures
            match (r, expect_punct_sp(old(self).t(), old(self).off(), old(self).i as int, want@)) {
                (Ok(_), Ok(j)) => final(self).moved_from(*old(self), j),
                (Err(e), Err(x)) => e@ == x,
                _ => false,
            },
            r matches Err(x) ==> parse_prose_ok(x),
    {
        proof {
            lemma_parse_prose();
        }
        let ok = match (&self.cur().tok, &want) {
            (Token::LParen, Token::LParen) => true,
            (Token::RParen, Token::RParen) => true,
            (Token::Comma, Token::Comma) => true,
            _ => false,
        };
        if ok {
            self.bump();
            Ok(())
        } else {
            let sp = self.cur_gspan();
            let mut m = string_of("expected `");
            push_str(&mut m, human);
            push_str(&mut m, "`");
            Err(syntax_error("E_EXPECTED_PUNCT", sp, m, "Fix punctuation to match the grammar."))
        }
    }

    fn parse_predicate(&mut self) -> (r: Result<Predicate, LirError>)
        requires
            old(self).wf(),
        ensures
            stepped(r, pred_or_sp(old(self).t(), old(self).off(), old(self).i as int), *final(self), *old(self)),
            r matches Err(x) ==> parse_prose_ok(x),
        decreases old(self).toks@.len() - old(self).i, 4int,
    {
        proof {
            lemma_parse_prose();
        }
        self.parse_or()
    }

    fn parse_or(&mut self) -> (r: Result<Predicate, LirError>)
        requires
            old(self).wf(),
        ensures
            stepped(r, pred_or_sp(old(self).t(), old(self).off(), old(self).i as int), *final(self), *old(self)),
            r matches Err(x) ==> parse_prose_ok(x),
        decreases old(self).toks@.len() - old(self).i, 3int,
    {
        proof {
            lemma_parse_prose();
        }
        let ghost t = self.t();
        let ghost off = self.off();
        let ghost i0 = self.i as int;
        let ghost before = *self;
        let mut left = self.parse_and()?;
        proof {
            lemma_progress_pred(t, off, i0);
        }
        while self.cur_ident_is("or")
            invariant
                self.wf(),
                before == *old(self),
                t == old(self).t(),
                off == old(self).off(),
                i0 == old(self).i,
                self.toks@ == before.toks@,
                self.global_off == before.global_off,
                self.t() == t,
                self.off() == off,
                i0 < self.i,
                pred_or_sp(t, off, i0) == or_rest_sp(t, off, left, self.i as int),
            decreases self.toks@.len() - self.i,
        {
            let ghost j = self.i as int;
            let span_left = pred_span(&left);
            self.bump();
            proof {
                lemma_progress_pred(t, off, j + 1);
            }
            let right = self.parse_and()?;
            let span = Span::merge(span_left, pred_span(&right));
            left = Predicate::Or { left: Box::new(left), right: Box::new(right), span };
        }
        Ok(left)
    }

    fn parse_and(&mut self) -> (r: Result<Predicate, LirError>)
        requires
            old(self).wf(),
        ensures
            stepped(r, pred_and_sp(old(self).t(), old(self).off(), old(self).i as int), *final(self), *old(self)),
            r matches Err(x) ==> parse_prose_ok(x),
        decreases old(self).toks@.len() - old(self).i, 2int,
    {
        proof {
            lemma_parse_prose();
        }
        let ghost t = self.t();
        let ghost off = self.off();
        let ghost i0 = self.i as int;
        let ghost before = *self;
        let mut left = self.parse_not()?;
        proof {
            lemma_progress_pred(t, off, i0);
        }
        while matches!(self.cur().tok, Token::Amp)
            invariant
                self.wf(),
                before == *old(self),
                t == old(self).t(),
                off == old(self).off(),
                i0 == old(self).i,
                self.toks@ == before.toks@,
                self.global_off == before.global_off,
                self.t() == t,
                self.off() == off,
                i0 < self.i,
                pred_and_sp(t, off, i0) == and_rest_sp(t, off, left, self.i as int),
            decreases self.toks@.len() - self.i,
        {
            let ghost j = self.i as int;
            let span_left = pred_span(&left);
            self.bump();
            proof {
                lemma_progress_pred(t, off, j + 1);
            }
            let right = self.parse_not()?;
            let span = Span::merge(span_left, pred_span(&right));
            left = Predicate::And { left: Box::new(left), right: Box::new(right), span };
        }
        Ok(left)
    }

    fn parse_not(&mut self) -> (r: Result<Predicate, LirError>)
        requires
            old(self).wf(),
        ensures
            stepped(r, pred_not_sp(old(self).t(), old(self).off(), old(self).i as int), *final(self), *old(self)),
            r matches Err(x) ==> parse_prose_ok(x),
        decreases old(self).toks@.len() - old(self).i, 1int,
    {
        proof {
            lemma_parse_prose();
        }
        if self.cur_ident_is("not") {
            let sp = self.cur_gspan();
            self.bump();
            let inner = self.parse_not()?;
            let span = Span::merge(sp, pred_span(&inner));
            return Ok(Predicate::Not { inner: Box::new(inner), span });
        }
        self.parse_primary_pred()
    }

    fn parse_primary_pred(&mut self) -> (r: Result<Predicate, LirError>)
        requires
            old(self).wf(),
        ensures
            stepped(r, pred_primary_sp(old(self).t(), old(self).off(), old(self).i as int), *final(self), *old(self)),
            r matches Err(x) ==> parse_prose_ok(x),
        decreases old(self).toks@.len() - old(self).i, 0int,
    {
        proof {
            lemma_parse_prose();
        }
        if matches!(self.cur().tok, Token::LParen) {
            self.bump();
            let p = self.parse_predicate()?;
            self.expect_tok(Token::RParen, ")")?;
            return Ok(p);
        }
        let (name, span) = self.expect_ident()?;
        if str_is(&name, "even") {
            Ok(Predicate::Even { span })
        } else if str_is(&name, "odd") {
            Ok(Predicate::Odd { span })
        } else if str_is(&name, "eq") || str_is(&name, "lt") || str_is(&name, "le") || str_is(&name, "gt")
            || str_is(&name, "ge") {
            let op = if str_is(&name, "eq") {
                CmpOp::Eq
            } else if str_is(&name, "lt") {
                CmpOp::Lt
            } else if str_is(&name, "le") {
                CmpOp::Le
            } else if str_is(&name, "gt") {
                CmpOp::Gt
            } else {
                CmpOp::Ge
            };
            let rhs = self.parse_compare_rhs(op, span)?;
            Ok(Predicate::Cmp { op, rhs, span })
        } else {
            Err(syntax_error(
                "E_PRED_ATOM",
                span,
                msg3("unknown predicate atom `", &name, "`"),
                "Use even, odd, eq/lt/le/gt/ge <int>, or parentheses.",
            ))
        }
    }

    fn parse_compare_rhs(&mut self, op: CmpOp, op_span: Span) -> (r: Result<CmpRhs, LirError>)
        requires
            old(self).wf(),
        ensures
            stepped(r, compare_rhs_sp(old(self).t(), old(self).off(), old(self).i as int, op, op_span), *final(self), *old(self)),
            r matches Err(x) ==> parse_prose_ok(x),
    {
        proof {
            lemma_parse_prose();
        }
        let sp = self.cur_gspan();
        match &self.cur().tok {
            Token::Int(v) => {
                let v = *v;
                self.bump();
                Ok(CmpRhs::Int(v))
            },
            Token::Ident(s) => {
                let is_true = str_is(s, "true");
                let is_false = str_is(s, "false");
                if !is_true && !is_false {
                    return Err(syntax_error(
                        "E_CMP_RHS",
                        op_span,
                        string_of("expected integer or true/false after comparison op"),
                        "Use e.g. `gt 10` or `eq true`.",
                    ));
                }
                self.bump();
                if op != CmpOp::Eq {
                    return Err(syntax_error(
                        "E_BOOL_CMP",
                        op_span,
                        string_of("bool literal comparisons require `eq`"),
                        "Use `eq true` or `eq false`, or compare integers with lt/le/gt/ge.",
                    ));
                }
                Ok(CmpRhs::Bool(is_true))
            },
            _ => Err(syntax_error(
                "E_CMP_RHS",
                sp,
                string_of("expected integer or true/false after comparison op"),
                "Use e.g. `gt 10` or `eq true`.",
            )),
        }
    }

    fn parse_expr(&mut self) -> (r: Result<Expr, LirError>)
        requires
            old(self).wf(),
        ensures
            stepped(r, expr_add_sp(old(self).t(), old(self).off(), old(self).i as int), *final(self), *old(self)),
            r matches Err(x) ==> parse_prose_ok(x),
        decreases old(self).toks@.len() - old(self).i, 4int,
    {
        proof {
            lemma_parse_prose();
        }
        self.parse_add()
    }

    fn parse_add(&mut self) -> (r: Result<Expr, LirError>)
        requires
            old(self).wf(),
        ensures
            stepped(r, expr_add_sp(old(self).t(), old(self).off(), old(self).i as int), *final(self), *old(self)),
            r matches Err(x) ==> parse_prose_ok(x),
        decreases old(self).toks@.len() - old(self).i, 3int,
    {
        proof {
            lemma_parse_prose();
        }
        let ghost t = self.t();
        let ghost off = self.off();
        let ghost i0 = self.i as int;
        let ghost before = *self;
        let mut left = self.parse_mul()?;
        proof {
            lemma_progress_expr(t, off, i0);
        }
        loop
            invariant
                self.wf(),
                before == *old(self),
                t == old(self).t(),
                off == old(self).off(),
                i0 == old(self).i,
                self.toks@ == before.toks@,
                self.global_off == before.global_off,
                self.t() == t,
                self.off() == off,
                i0 < self.i,
                expr_add_sp(t, off, i0) == add_rest_sp(t, off, left, self.i as int),
            ensures
                expr_add_sp(t, off, i0) == Ok::<(Expr, int), ErrorView>((left, self.i as int)),
                self.moved_from(before, self.i as int),
            decreases self.toks@.len() - self.i,
        {
            let is_add = self.cur_ident_is("add");
            let is_sub = self.cur_ident_is("sub");
            if !is_add && !is_sub {
                break;
            }
            let ghost j = self.i as int;
            self.bump();
            proof {
                lemma_progress_expr(t, off, j + 1);
            }
            let right = self.parse_mul()?;
            let span = Span::merge(expr_span(&left), expr_span(&right));
            left = if is_add {
                Expr::Add { left: Box::new(left), right: Box::new(right), span }
            } else {
                Expr::Sub { left: Box::new(left), right: Box::new(right), span }
            };
        }
        Ok(left)
    }

    fn parse_mul(&mut self) -> (r: Result<Expr, LirError>)
        requires
            old(self).wf(),
        ensures
            stepped(r, expr_mul_sp(old(self).t(), old(self).off(), old(self).i as int), *final(self), *old(self)),
            r matches Err(x) ==> parse_prose_ok(x),
        decreases old(self).toks@.len() - old(self).i, 2int,
    {
        proof {
            lemma_parse_prose();
        }
        let ghost t = self.t();
        let ghost off = self.off();
        let ghost i0 = self.i as int;
        let ghost before = *self;
        let mut left = self.parse_unary()?;
        proof {
            lemma_progress_expr(t, off, i0);
        }
        loop
            invariant
                self.wf(),
                before == *old(self),
                t == old(self).t(),
                off == old(self).off(),
                i0 == old(self).i,
                self.toks@ == before.toks@,
                self.global_off == before.global_off,
                self.t() == t,
                self.off() == off,
                i0 < self.i,
                expr_mul_sp(t, off, i0) == mul_rest_sp(t, off, left, self.i as int),
            ensures
                expr_mul_sp(t, off, i0) == Ok::<(Expr, int), ErrorView>((left, self.i as int)),
                self.moved_from(before, self.i as int),
            decreases self.toks@.len() - self.i,
        {
            let is_mul = self.cur_ident_is("mul");
            let is_div = self.cur_ident_is("div");
            let is_mod = self.cur_ident_is("mod");
            if !is_mul && !is_div && !is_mod {
                break;
            }
            let ghost j = self.i as int;
            self.bump();
            proof {
                lemma_progress_expr(t, off, j + 1);
            }
            let right = self.parse_unary()?;
            let span = Span::merge(expr_span(&left), expr_span(&right));
            left = if is_mul {
                Expr::Mul { left: Box::new(left), right: Box::new(right), span }
            } else if is_div {
                Expr::Div { left: Box::new(left), right: Box::new(right), span }
            } else {
                Expr::Mod { left: Box::new(left), right: Box::new(right), span }
            };
        }
        Ok(left)
    }

    fn parse_unary(&mut self) -> (r: Result<Expr, LirError>)
        requires
            old(self).wf(),
        ensures
            stepped(r, expr_unary_sp(old(self).t(), old(self).off(), old(self).i as int), *final(self), *old(self)),
            r matches Err(x) ==> parse_prose_ok(x),
        decreases old(self).toks@.len() - old(self).i, 1int,
    {
        proof {
            lemma_parse_prose();
        }
        if self.cur_ident_is("neg") {
            let sp = self.cur_gspan();
            self.bump();
            let inner = self.parse_unary()?;
            let span = Span::merge(sp, expr_span(&inner));
            return Ok(Expr::Neg { inner: Box::new(inner), span });
        }
        self.parse_primary_expr()
    }

    fn parse_primary_expr(&mut self) -> (r: Result<Expr, LirError>)
        requires
            old(self).wf(),
        ensures
            stepped(r, expr_primary_sp(old(self).t(), old(self).off(), old(self).i as int), *final(self), *old(self)),
            r matches Err(x) ==> parse_prose_ok(x),
        decreases old(self).toks@.len() - old(self).i, 0int,
    {
        proof {
            lemma_parse_prose();
        }
        let sp = self.cur_gspan();
        match &self.cur().tok {
            Token::Dot => {
                self.bump();
                Ok(Expr::Dot { span: sp })
            },
            Token::Int(v) => {
                let v = *v;
                self.bump();
                Ok(Expr::Lit { v, span: sp })
            },
            Token::Ident(s) => {
                if str_is(s, "square") {
                    self.bump();
                    let d = Expr::Dot { span: sp };
                    Ok(Expr::Mul { left: Box::new(Expr::Dot { span: sp }), right: Box::new(d), span: sp })
                } else {
                    Err(primary_expr_error(sp))
                }
            },
            Token::LParen => {
                self.bump();
                let e = self.parse_expr()?;
                self.expect_tok(Token::RParen, ")")?;
                Ok(e)
            },
            _ => Err(primary_expr_error(sp)),
        }
    }

    fn parse_source(&mut self) -> (r: Result<(Source, Span), LirError>)
        requires
            old(self).wf(),
        ensures
            match (r, source_sp(old(self).t(), old(self).off(), old(self).i as int)) {
                (Ok((src, sp)), Ok((v, j))) => src@ == v && sp == source_span_of(v) && final(self).moved_from(*old(self), j),
                (Err(e), Err(x)) => e@ == x,
                _ => false,
            },
            r matches Err(x) ==> parse_prose_ok(x),
    {
        proof {
            lemma_parse_prose();
        }
        let (name, span) = self.expect_ident()?;
        if str_is(&name, "input") {
            if matches!(self.cur().tok, Token::Colon) {
                self.bump();
                let (tname, _) = self.expect_ident()?;
                let ty = if str_is(&tname, "i32") {
                    ElemTy::I32
                } else if str_is(&tname, "i64") {
                    ElemTy::I64
                } else if str_is(&tname, "bool") {
                    ElemTy::Bool
                } else {
                    return Err(syntax_error(
                        "E_BAD_INPUT_TY",
                        span,
                        msg3("unknown input type `", &tname, "`"),
                        "Use i32, i64, or bool.",
                    ));
                };
                Ok((Source::Input { ty, explicit: true, span }, span))
            } else {
                Ok((Source::Input { ty: ElemTy::I32, explicit: false, span }, span))
            }
        } else if str_is(&name, "range") {
            self.parse_range(span)
        } else if str_is(&name, "lit") {
            self.parse_lit(span)
        } else {
            Err(syntax_error("E_BAD_SOURCE", span, msg3("unknown source `", &name, "`"), "Start with input, range, or lit."))
        }
    }

    fn parse_range(&mut self, span_start: Span) -> (r: Result<(Source, Span), LirError>)
        requires
            old(self).wf(),
        ensures
            match (r, range_sp(old(self).t(), old(self).off(), old(self).i as int, span_start)) {
                (Ok((src, sp)), Ok((v, j))) => src@ == v && sp == source_span_of(v) && final(self).moved_from(*old(self), j),
                (Err(e), Err(x)) => e@ == x,
                _ => false,
            },
            r matches Err(x) ==> parse_prose_ok(x),
    {
        proof {
            lemma_parse_prose();
        }
        self.expect_tok(Token::LParen, "(")?;
        let (a, _) = self.expect_int()?;
        self.expect_tok(Token::Comma, ",")?;
        let (b, _) = self.expect_int()?;
        let (start, stop, step, end_span) = if matches!(self.cur().tok, Token::Comma) {
            self.bump();
            let (s, _) = self.expect_int()?;
            let rparen = self.cur_gspan();
            self.expect_tok(Token::RParen, ")")?;
            if s == 0 {
                return Err(syntax_error(
                    "E_RANGE_STEP_ZERO",
                    span_start,
                    string_of("range step must not be zero"),
                    "Use a non-zero step or omit the third argument.",
                ));
            }
            if provably_infinite(a, b, s) {
                return Err(syntax_error(
                    "E_RANGE_INFINITE",
                    span_start,
                    string_of("range never reaches stop (infinite)"),
                    "Adjust start/stop/step so the sequence terminates at stop.",
                ));
            }
            (a, b, s, rparen)
        } else {
            let rparen = self.cur_gspan();
            self.expect_tok(Token::RParen, ")")?;
            let step: i64 = if a < b {
                1
            } else if a > b {
                -1
            } else {
                1
            };
            (a, b, step, rparen)
        };
        let span = Span::merge(span_start, end_span);
        Ok((Source::Range { start, stop, step, span }, span))
    }

    fn parse_lit(&mut self, span_start: Span) -> (r: Result<(Source, Span), LirError>)
        requires
            old(self).wf(),
        ensures
            match (r, lit_sp(old(self).t(), old(self).off(), old(self).i as int, span_start)) {
                (Ok((src, sp)), Ok((v, j))) => src@ == v && sp == source_span_of(v) && final(self).moved_from(*old(self), j),
                (Err(e), Err(x)) => e@ == x,
                _ => false,
            },
            r matches Err(x) ==> parse_prose_ok(x),
    {
        proof {
            lemma_parse_prose();
        }
        let ghost t = self.t();
        let ghost off = self.off();
        self.expect_tok(Token::LParen, "(")?;
        let mut elems: Vec<LitElem> = Vec::new();
        if matches!(self.cur().tok, Token::RParen) {
            let rparen = self.cur_gspan();
            self.bump();
            let span = Span::merge(span_start, rparen);
            return Ok((Source::Lit { elems, span }, span));
        }
        let ghost j0 = self.i as int;
        let ghost before = *self;
        proof {
            assert(lit_sp(old(self).t(), old(self).off(), old(self).i as int, span_start) == match lit_elems_sp(t, off, j0) {
                Err(e) => Err(e),
                Ok((elems, k)) => match expect_punct_sp(t, off, k, TokenView::RParen) {
                    Err(e) => Err(e),
                    Ok(k2) => Ok((SourceView::Lit { elems, span: merge_spec(span_start, gsp(span_at(t, k), off)) }, k2)),
                },
            });
        }
        loop
            invariant_except_break
                match lit_elems_sp(t, off, self.i as int) {
                    Ok((rest, k)) => lit_elems_sp(t, off, j0) == Ok::<(Seq<LitElem>, int), ErrorView>((elems@ + rest, k)),
                    Err(e) => lit_elems_sp(t, off, j0) == Err::<(Seq<LitElem>, int), ErrorView>(e),
                },
            invariant
                self.wf(),
                lit_sp(old(self).t(), old(self).off(), old(self).i as int, span_start) == match lit_elems_sp(t, off, j0) {
                    Err(e) => Err(e),
                    Ok((elems, k)) => match expect_punct_sp(t, off, k, TokenView::RParen) {
                        Err(e) => Err(e),
                        Ok(k2) => Ok((SourceView::Lit { elems, span: merge_spec(span_start, gsp(span_at(t, k), off)) }, k2)),
                    },
                },
                self.toks@ == before.toks@,
                self.global_off == before.global_off,
                self.t() == t,
                self.off() == off,
                j0 <= self.i,
            ensures
                self.wf(),
                self.toks@ == before.toks@,
                self.global_off == before.global_off,
                lit_elems_sp(t, off, j0) == Ok::<(Seq<LitElem>, int), ErrorView>((elems@, self.i as int)),
            decreases self.toks@.len() - self.i,
        {
            let ghost i = self.i as int;
            let sp = self.cur_gspan();
            let el = match &self.cur().tok {
                Token::Int(v) => {
                    let v = *v;
                    self.bump();
                    if v >= i32::MIN as i64 && v <= i32::MAX as i64 {
                        LitElem::I32(v as i32)
                    } else {
                        LitElem::I64(v)
                    }
                },
                Token::Ident(s) => {
                    if str_is(s, "true") {
                        self.bump();
                        LitElem::Bool(true)
                    } else if str_is(s, "false") {
                        self.bump();
                        LitElem::Bool(false)
                    } else {
                        proof {
                            lemma_parse_prose();
                        }
                        return Err(syntax_error(
                            "E_LIT_ATOM",
                            sp,
                            msg3("expected integer or bool in lit(), got `", s, "`"),
                            "Use integer literals or true/false.",
                        ));
                    }
                },
                _ => {
                    proof {
                        lemma_parse_prose();
                    }
                    return Err(syntax_error(
                        "E_LIT_ATOM",
                        sp,
                        string_of("expected integer or bool in lit()"),
                        "Use integer literals or true/false.",
                    ));
                },
            };
            let ghost old_elems = elems@;
            elems.push(el);
            if matches!(self.cur().tok, Token::Comma) {
                self.bump();
                if matches!(self.cur().tok, Token::RParen) {
                    let sp2 = self.cur_gspan();
                    proof {
                        lemma_parse_prose();
                    }
                    return Err(syntax_error(
                        "E_TRAILING_COMMA",
                        sp2,
                        string_of("trailing comma before `)`"),
                        "Remove the trailing comma.",
                    ));
                }
                proof {
                    match lit_elems_sp(t, off, self.i as int) {
                        Ok((rest, k)) => {
                            assert(old_elems + (seq![el] + rest) == elems@ + rest);
                        },
                        Err(_) => {},
                    }
                }
                continue;
            }
            proof {
                assert(old_elems + seq![el] == elems@);
            }
            break;
        }
        let rparen = self.cur_gspan();
        self.expect_tok(Token::RParen, ")")?;
        let span = Span::merge(span_start, rparen);
        Ok((Source::Lit { elems, span }, span))
    }

    fn parse_stage(&mut self) -> (r: Result<Stage, LirError>)
        requires
            old(self).wf(),
        ensures
            stepped(r, stage_sp(old(self).t(), old(self).off(), old(self).i as int), *final(self), *old(self)),
            r matches Err(x) ==> parse_prose_ok(x),
    {
        proof {
            lemma_parse_prose();
        }
        let (name, span) = self.expect_ident()?;
        if str_is(&name, "filter") {
            let pred = self.parse_predicate()?;
            Ok(Stage::Filter { pred, span })
        } else if str_is(&name, "map") {
            let expr = self.parse_expr()?;
            let expr = desugar_map_expr(expr);
            Ok(Stage::MapEach { expr, span })
        } else if str_is(&name, "scan") {
            let (init, _) = self.expect_int()?;
            self.expect_tok(Token::Comma, ",")?;
            let (opname, _) = self.expect_ident()?;
            let op = if str_is(&opname, "add") {
                ScanOp::Add
            } else if str_is(&opname, "sub") {
                ScanOp::Sub
            } else if str_is(&opname, "mul") {
                ScanOp::Mul
            } else {
                return Err(syntax_error("E_SCAN_OP", span, msg3("unknown scan op `", &opname, "`"), "Use add, sub, or mul."));
            };
            Ok(Stage::Scan { init, op, span })
        } else if str_is(&name, "reduce") {
            let (rname, _) = self.expect_ident()?;
            let op = if str_is(&rname, "sum") {
                ReduceOp::Sum
            } else if str_is(&rname, "prod") {
                ReduceOp::Prod
            } else if str_is(&rname, "count") {
                ReduceOp::Count
            } else if str_is(&rname, "min") {
                ReduceOp::Min
            } else if str_is(&rname, "max") {
                ReduceOp::Max
            } else {
                return Err(syntax_error(
                    "E_REDUCE_OP",
                    span,
                    msg3("unknown reducer `", &rname, "`"),
                    "Use sum, prod, count, min, or max.",
                ));
            };
            Ok(Stage::Reduce { op, span })
        } else if str_is(&name, "take") || str_is(&name, "drop") {
            let is_take = str_is(&name, "take");
            let (n, nsp) = self.expect_int()?;
            if n < 0 || n > u32::MAX as i64 {
                if is_take {
                    return Err(syntax_error(
                        "E_TAKE_RANGE",
                        nsp,
                        string_of("take requires non-negative i32-sized literal"),
                        "Use an integer from 0 to 2^32-1.",
                    ));
                } else {
                    return Err(syntax_error(
                        "E_DROP_RANGE",
                        nsp,
                        string_of("drop requires non-negative i32-sized literal"),
                        "Use an integer from 0 to 2^32-1.",
                    ));
                }
            }
            if is_take {
                Ok(Stage::Take { n: n as u32, span })
            } else {
                Ok(Stage::Drop { n: n as u32, span })
            }
        } else if str_is(&name, "id") {
            Ok(Stage::Id { span })
        } else {
            Err(syntax_error(
                "E_BAD_STAGE",
                span,
                msg3("unknown stage `", &name, "`"),
                "Use filter, map, scan, reduce, take, drop, or id.",
            ))
        }
    }
}

/// A copy of `cs[lo..hi]`.
fn chars_between(cs: &Vec<char>, lo: usize, hi: usize) -> (v: Vec<char>)
    requires
        lo <= hi <= cs@.len(),
    ensures
        v@ == cs@.subrange(lo as int, hi as int),
{
    let mut v: Vec<char> = Vec::new();
    let mut k = lo;
    while k < hi
        invariant
            lo <= k <= hi <= cs@.len(),
            v@ == cs@.subrange(lo as int, k as int),
        decreases hi - k,
    {
        v.push(cs[k]);
        k = k + 1;
    }
    v
}

proof fn lemma_trim_end_cr_step(t: Seq<char>, k: int)
    requires
        0 < k <= t.len(),
        t[k - 1] == '\r',
    ensures
        trim_end_cr(t.take(k)) == trim_end_cr(t.take(k - 1)),
{
    assert(t.take(k).drop_last() =~= t.take(k - 1));
}

proof fn lemma_trim_start_cr_step(t: Seq<char>, b: int)
    requires
        0 <= b < t.len(),
        t[b] == '\r',
    ensures
        trim_start_cr(t.subrange(b, t.len() as int)) == trim_start_cr(t.subrange(b + 1, t.len() as int)),
{
    assert(t.subrange(b, t.len() as int).drop_first() =~= t.subrange(b + 1, t.len() as int));
}

/// Bytes of consecutive parts add up.
proof fn lemma_utf8_split(cs: Seq<char>, a: int, b: int, c: int)
    requires
        0 <= a <= b <= c <= cs.len(),
    ensures
        utf8_len(cs.subrange(a, b)) + utf8_len(cs.subrange(b, c)) == utf8_len(cs.subrange(a, c)),
{
    assert(cs.subrange(a, c) =~= cs.subrange(a, b) + cs.subrange(b, c));
    lemma_encode_utf8_concat(cs.subrange(a, b), cs.subrange(b, c));
}

/// One stage of a `|`-separated list, in terms of the rest of the list.
proof fn lemma_stages_step(t: Seq<LexemeView>, off: int, i: int)
    requires
        0 <= i <= t.len(),
    ensures
        match stage_sp(t, off, i) {
            Err(e) => stages_sp(t, off, i) == Err::<(Seq<Stage>, int), ErrorView>(e),
            Ok((st, j)) => if tok_at(t, j) is Pipe {
                stages_sp(t, off, i) == prepend_stages(seq![st], stages_sp(t, off, j + 1))
            } else {
                stages_sp(t, off, i) == Ok::<(Seq<Stage>, int), ErrorView>((seq![st], j))
            },
        },
{
    reveal(stages_sp);
    lemma_progress_stage(t, off, i);
}

/// A token sequence that lexing produced for a body placed at `off` is ready for parsing.
proof fn lemma_parser_ready(toks: Seq<Lexeme>, body: Seq<char>, off: int)
    requires
        lex_from(body, 0) == Ok::<Seq<LexemeView>, ErrorView>(lexemes_view(toks)),
        0 <= off,
        off + body.len() <= usize::MAX,
    ensures
        toks.len() >= 1,
        toks.last().tok is Eof,
        forall|k: int| 0 <= k < toks.len() ==>
            (#[trigger] toks[k]).span.start <= toks[k].span.end
            && toks[k].span.end + off <= usize::MAX,
{
    lemma_lex_shape(body, 0);
    let s = lexemes_view(toks);
    assert(s.len() == toks.len());
    assert(s.last() == toks.last()@);
    assert forall|k: int| 0 <= k < toks.len() implies
        (#[trigger] toks[k]).span.start <= toks[k].span.end
        && toks[k].span.end + off <= usize::MAX by {
        assert(s[k] == toks[k]@);
    }
}

/// End of the first line (`newline_from(t, 0)`) and end of the header line within it.
fn first_line_ends(t: &Vec<char>) -> (r: (usize, usize))
    ensures
        r.0 == newline_from(t@, 0),
        r.1 <= r.0 <= t@.len(),
        header_line(t@) == t@.take(r.1 as int),
{
    let n = t.len();
    let mut nl: usize = 0;
    while nl < n && t[nl] != '\n'
        invariant
            nl <= n == t@.len(),
            newline_from(t@, 0) == newline_from(t@, nl as int),
        decreases n - nl,
    {
        nl = nl + 1;
    }
    let mut he: usize = nl;
    while he > 0 && t[he - 1] == '\r'
        invariant
            he <= nl <= n == t@.len(),
            nl == newline_from(t@, 0),
            header_line(t@) == trim_end_cr(t@.take(he as int)),
        decreases he,
    {
        proof {
            lemma_trim_end_cr_step(t@, he as int);
        }
        he = he - 1;
    }
    (nl, he)
}

/// Whether the first `he` characters spell `lir/1`.
fn is_header(t: &Vec<char>, he: usize) -> (b: bool)
    requires
        he <= t@.len(),
    ensures
        b == (t@.take(he as int) == "lir/1"@),
{
    proof {
        reveal_strlit("lir/1");
        assert("lir/1"@ =~= seq!['l', 'i', 'r', '/', '1']);
    }
    let b = he == 5 && t[0] == 'l' && t[1] == 'i' && t[2] == 'r' && t[3] == '/' && t[4] == '1';
    proof {
        if b {
            assert(t@.take(he as int) =~= "lir/1"@);
        } else if he == 5 {
            assert(t@.take(5)[0] == t@[0]);
            assert(t@.take(5)[1] == t@[1]);
            assert(t@.take(5)[2] == t@[2]);
            assert(t@.take(5)[3] == t@[3]);
            assert(t@.take(5)[4] == t@[4]);
        }
    }
    b
}

/// Start of the body: after the first `\n` and the carriage returns that follow it.
fn body_start(t: &Vec<char>, nl: usize) -> (b: usize)
    requires
        nl == newline_from(t@, 0),
        nl <= t@.len(),
    ensures
        body_text(t@) == t@.subrange(b as int, t@.len() as int),
        nl < t@.len() ==> nl < b <= t@.len(),
        nl >= t@.len() ==> b == t@.len(),
{
    let n = t.len();
    if nl >= n {
        assert(t@.subrange(n as int, n as int) =~= Seq::<char>::empty());
        return n;
    }
    let mut b = nl + 1;
    assert(t@.skip(nl + 1) =~= t@.subrange(nl + 1, n as int));
    while b < n && t[b] == '\r'
        invariant
            nl < b <= n == t@.len(),
            body_text(t@) == trim_start_cr(t@.subrange(b as int, n as int)),
        decreases n - b,
    {
        proof {
            lemma_trim_start_cr_step(t@, b as int);
        }
        b = b + 1;
    }
    b
}

impl Parser {
    /// Source, `|`, stages, end of input.
    fn parse_pipeline(&mut self) -> (r: Result<(Source, Vec<Stage>), LirError>)
        requires
            old(self).wf(),
            old(self).i == 0,
        ensures
            match (r, pipeline_sp(old(self).t(), old(self).off())) {
                (Ok((src, st)), Ok((v, w))) => src@ == v && st@ == w,
                (Err(e), Err(x)) => e@ == x,
                _ => false,
            },
            r matches Err(x) ==> parse_prose_ok(x),
    {
        proof {
            lemma_parse_prose();
        }
        let ghost tv = self.t();
        let ghost off = self.off();
        let (source, _sspan) = self.parse_source()?;
        if !self.match_pipe() {
            let sp = self.cur_gspan();
            return Err(syntax_error(
                "E_EXPECTED_STAGE",
                sp,
                string_of("expected `|` followed by a stage after the source"),
                "Write e.g. `input:i32 | reduce count`.",
            ));
        }
        let ghost i0 = self.i as int;
        let ghost sv = source@;
        assert(pipeline_sp(tv, off) == finish_pipeline(tv, off, sv, stages_sp(tv, off, i0)));
        let mut stages: Vec<Stage> = Vec::new();
        let mut more = true;
        while more
            invariant
                pipeline_sp(tv, off) == finish_pipeline(tv, off, sv, stages_sp(tv, off, i0)),
                old(self).t() == tv,
                old(self).off() == off,
                self.wf(),
                self.t() == tv,
                self.off() == off,
                more ==> stages_sp(tv, off, i0) == prepend_stages(stages@, stages_sp(tv, off, self.i as int)),
                !more ==> stages_sp(tv, off, i0) == Ok::<(Seq<Stage>, int), ErrorView>((stages@, self.i as int)),
            decreases tv.len() - self.i,
        {
            let ghost pre = stages@;
            let ghost at = self.i as int;
            proof {
                lemma_stages_step(tv, off, at);
                lemma_progress_stage(tv, off, at);
            }
            let stage = self.parse_stage()?;
            stages.push(stage);
            assert(stages@ == pre + seq![stage]);
            if !self.match_pipe() {
                more = false;
            } else {
                proof {
                    match stages_sp(tv, off, self.i as int) {
                        Ok((rest, k)) => {
                            assert(pre + (seq![stage] + rest) == stages@ + rest);
                        },
                        Err(_) => {},
                    }
                }
            }
        }
        if !self.is_eof() {
            let sp = self.cur_gspan();
            return Err(syntax_error(
                "E_EXPECTED_EOF",
                sp,
                string_of("unexpected token after pipeline"),
                "Remove trailing tokens or insert | before the next stage.",
            ));
        }
        Ok((source, stages))
    }
}

/// The hint that goes with each syntax diagnostic code.
pub open spec fn parse_hint(code: Seq<char>) -> Seq<char> {
    if code == "E_EXPR_PRIMARY"@ {
        "In map, use `.` for the current element, e.g. `mul . .` or `square`."@
    } else if code == "E_EXPECTED_IDENT"@ {
        "Use a keyword or name allowed by the LIR v1 grammar."@
    } else if code == "E_EXPECTED_INT"@ {
        "Provide a decimal integer."@
    } else if code == "E_CMP_RHS"@ {
        "Use e.g. `gt 10` or `eq true`."@
    } else if code == "E_BOOL_CMP"@ {
        "Use `eq true` or `eq false`, or compare integers with lt/le/gt/ge."@
    } else if code == "E_RANGE_STEP_ZERO"@ {
        "Use a non-zero step or omit the third argument."@
    } else if code == "E_RANGE_INFINITE"@ {
        "Adjust start/stop/step so the sequence terminates at stop."@
    } else if code == "E_TRAILING_COMMA"@ {
        "Remove the trailing comma."@
    } else if code == "E_TAKE_RANGE"@ {
        "Use an integer from 0 to 2^32-1."@
    } else if code == "E_DROP_RANGE"@ {
        "Use an integer from 0 to 2^32-1."@
    } else if code == "E_EXPECTED_STAGE"@ {
        "Write e.g. `input:i32 | reduce count`."@
    } else if code == "E_EXPECTED_EOF"@ {
        "Remove trailing tokens or insert | before the next stage."@
    } else if code == "E_HEADER"@ {
        "Start the program with a line containing only lir/1"@
    } else if code == "E_BAD_MINUS"@ {
        "Use a unary `neg` inside map expressions; in range/lit use `-123`."@
    } else if code == "E_EXPECTED_PUNCT"@ {
        "Fix punctuation to match the grammar."@
    } else if code == "E_PRED_ATOM"@ {
        "Use even, odd, eq/lt/le/gt/ge <int>, or parentheses."@
    } else if code == "E_BAD_INPUT_TY"@ {
        "Use i32, i64, or bool."@
    } else if code == "E_BAD_SOURCE"@ {
        "Start with input, range, or lit."@
    } else if code == "E_LIT_ATOM"@ {
        "Use integer literals or true/false."@
    } else if code == "E_SCAN_OP"@ {
        "Use add, sub, or mul."@
    } else if code == "E_REDUCE_OP"@ {
        "Use sum, prod, count, min, or max."@
    } else if code == "E_BAD_STAGE"@ {
        "Use filter, map, scan, reduce, take, drop, or id."@
    } else if code == "E_INT_PARSE"@ {
        "Use a decimal integer literal."@
    } else if code == "E_INT_RANGE"@ {
        "Use a value that fits in signed 64 bits."@
    } else if code == "E_UNEXPECTED_CHAR"@ {
        "LIR v1 allows only letters, digits, _, and | ( ) , . & :."@
    } else {
        Seq::empty()
    }
}

/// The message of a syntax diagnostic code whose message does not name what was found.
pub open spec fn parse_fixed_message(code: Seq<char>) -> Option<Seq<char>> {
    if code == "E_EXPR_PRIMARY"@ {
        Some("expected `.`, integer, square, or `(`"@)
    } else if code == "E_EXPECTED_IDENT"@ {
        Some("expected identifier"@)
    } else if code == "E_EXPECTED_INT"@ {
        Some("expected integer literal"@)
    } else if code == "E_CMP_RHS"@ {
        Some("expected integer or true/false after comparison op"@)
    } else if code == "E_BOOL_CMP"@ {
        Some("bool literal comparisons require `eq`"@)
    } else if code == "E_RANGE_STEP_ZERO"@ {
        Some("range step must not be zero"@)
    } else if code == "E_RANGE_INFINITE"@ {
        Some("range never reaches stop (infinite)"@)
    } else if code == "E_TRAILING_COMMA"@ {
        Some("trailing comma before `)`"@)
    } else if code == "E_TAKE_RANGE"@ {
        Some("take requires non-negative i32-sized literal"@)
    } else if code == "E_DROP_RANGE"@ {
        Some("drop requires non-negative i32-sized literal"@)
    } else if code == "E_EXPECTED_STAGE"@ {
        Some("expected `|` followed by a stage after the source"@)
    } else if code == "E_EXPECTED_EOF"@ {
        Some("unexpected token after pipeline"@)
    } else if code == "E_HEADER"@ {
        Some("first line must be exactly `lir/1`"@)
    } else if code == "E_BAD_MINUS"@ {
        Some("`-` must be followed by digits here"@)
    } else {
        None
    }
}

/// A syntax diagnostic carries the hint of its code, and the message of its code where that
/// message names nothing that was found.
pub open spec fn parse_prose_ok(e: LirError) -> bool {
    &&& lir_prose(e).1 == parse_hint(e@.code)
    &&& (parse_fixed_message(e@.code) matches Some(m) ==> lir_prose(e).0 == m)
}

proof fn lemma_parse_prose()
    ensures
        parse_hint("E_EXPR_PRIMARY"@) == "In map, use `.` for the current element, e.g. `mul . .` or `square`."@ && parse_fixed_message("E_EXPR_PRIMARY"@) == Some("expected `.`, integer, square, or `(`"@),
        parse_hint("E_EXPECTED_IDENT"@) == "Use a keyword or name allowed by the LIR v1 grammar."@ && parse_fixed_message("E_EXPECTED_IDENT"@) == Some("expected identifier"@),
        parse_hint("E_EXPECTED_INT"@) == "Provide a decimal integer."@ && parse_fixed_message("E_EXPECTED_INT"@) == Some("expected integer literal"@),
        parse_hint("E_CMP_RHS"@) == "Use e.g. `gt 10` or `eq true`."@ && parse_fixed_message("E_CMP_RHS"@) == Some("expected integer or true/false after comparison op"@),
        parse_hint("E_BOOL_CMP"@) == "Use `eq true` or `eq false`, or compare integers with lt/le/gt/ge."@ && parse_fixed_message("E_BOOL_CMP"@) == Some("bool literal comparisons require `eq`"@),
        parse_hint("E_RANGE_STEP_ZERO"@) == "Use a non-zero step or omit the third argument."@ && parse_fixed_message("E_RANGE_STEP_ZERO"@) == Some("range step must not be zero"@),
        parse_hint("E_RANGE_INFINITE"@) == "Adjust start/stop/step so the sequence terminates at stop."@ && parse_fixed_message("E_RANGE_INFINITE"@) == Some("range never reaches stop (infinite)"@),
        parse_hint("E_TRAILING_COMMA"@) == "Remove the trailing comma."@ && parse_fixed_message("E_TRAILING_COMMA"@) == Some("trailing comma before `)`"@),
        parse_hint("E_TAKE_RANGE"@) == "Use an integer from 0 to 2^32-1."@ && parse_fixed_message("E_TAKE_RANGE"@) == Some("take requires non-negative i32-sized literal"@),
        parse_hint("E_DROP_RANGE"@) == "Use an integer from 0 to 2^32-1."@ && parse_fixed_message("E_DROP_RANGE"@) == Some("drop requires non-negative i32-sized literal"@),
        parse_hint("E_EXPECTED_STAGE"@) == "Write e.g. `input:i32 | reduce count`."@ && parse_fixed_message("E_EXPECTED_STAGE"@) == Some("expected `|` followed by a stage after the source"@),
        parse_hint("E_EXPECTED_EOF"@) == "Remove trailing tokens or insert | before the next stage."@ && parse_fixed_message("E_EXPECTED_EOF"@) == Some("unexpected token after pipeline"@),
        parse_hint("E_HEADER"@) == "Start the program with a line containing only lir/1"@ && parse_fixed_message("E_HEADER"@) == Some("first line must be exactly `lir/1`"@),
        parse_hint("E_BAD_MINUS"@) == "Use a unary `neg` inside map expressions; in range/lit use `-123`."@ && parse_fixed_message("E_BAD_MINUS"@) == Some("`-` must be followed by digits here"@),
        parse_hint("E_EXPECTED_PUNCT"@) == "Fix punctuation to match the grammar."@ && parse_fixed_message("E_EXPECTED_PUNCT"@) is None,
        parse_hint("E_PRED_ATOM"@) == "Use even, odd, eq/lt/le/gt/ge <int>, or parentheses."@ && parse_fixed_message("E_PRED_ATOM"@) is None,
        parse_hint("E_BAD_INPUT_TY"@) == "Use i32, i64, or bool."@ && parse_fixed_message("E_BAD_INPUT_TY"@) is None,
        parse_hint("E_BAD_SOURCE"@) == "Start with input, range, or lit."@ && parse_fixed_message("E_BAD_SOURCE"@) is None,
        parse_hint("E_LIT_ATOM"@) == "Use integer literals or true/false."@ && parse_fixed_message("E_LIT_ATOM"@) is None,
        parse_hint("E_SCAN_OP"@) == "Use add, sub, or mul."@ && parse_fixed_message("E_SCAN_OP"@) is None,
        parse_hint("E_REDUCE_OP"@) == "Use sum, prod, count, min, or max."@ && parse_fixed_message("E_REDUCE_OP"@) is None,
        parse_hint("E_BAD_STAGE"@) == "Use filter, map, scan, reduce, take, drop, or id."@ && parse_fixed_message("E_BAD_STAGE"@) is None,
        parse_hint("E_INT_PARSE"@) == "Use a decimal integer literal."@ && parse_fixed_message("E_INT_PARSE"@) is None,
        parse_hint("E_INT_RANGE"@) == "Use a value that fits in signed 64 bits."@ && parse_fixed_message("E_INT_RANGE"@) is None,
        parse_hint("E_UNEXPECTED_CHAR"@) == "LIR v1 allows only letters, digits, _, and | ( ) , . & :."@ && parse_fixed_message("E_UNEXPECTED_CHAR"@) is None,
{
    reveal_strlit("E_EXPR_PRIMARY");
    reveal_strlit("E_EXPECTED_IDENT");
    reveal_strlit("E_EXPECTED_INT");
    reveal_strlit("E_CMP_RHS");
    reveal_strlit("E_BOOL_CMP");
    reveal_strlit("E_RANGE_STEP_ZERO");
    reveal_strlit("E_RANGE_INFINITE");
    reveal_strlit("E_TRAILING_COMMA");
    reveal_strlit("E_TAKE_RANGE");
    reveal_strlit("E_DROP_RANGE");
    reveal_strlit("E_EXPECTED_STAGE");
    reveal_strlit("E_EXPECTED_EOF");
    reveal_strlit("E_HEADER");
    reveal_strlit("E_BAD_MINUS");
    reveal_strlit("E_EXPECTED_PUNCT");
    reveal_strlit("E_PRED_ATOM");
    reveal_strlit("E_BAD_INPUT_TY");
    reveal_strlit("E_BAD_SOURCE");
    reveal_strlit("E_LIT_ATOM");
    reveal_strlit("E_SCAN_OP");
    reveal_strlit("E_REDUCE_OP");
    reveal_strlit("E_BAD_STAGE");
    reveal_strlit("E_INT_PARSE");
    reveal_strlit("E_INT_RANGE");
    reveal_strlit("E_UNEXPECTED_CHAR");
    assert("E_EXPR_PRIMARY"@.len() == 14 && "E_EXPR_PRIMARY"@[5] == 'R' && "E_EXPR_PRIMARY"@[6] == '_' && "E_EXPR_PRIMARY"@[11] == 'A');
    assert("E_EXPECTED_IDENT"@.len() == 16 && "E_EXPECTED_IDENT"@[5] == 'E' && "E_EXPECTED_IDENT"@[6] == 'C' && "E_EXPECTED_IDENT"@[11] == 'I');
    assert("E_EXPECTED_INT"@.len() == 14 && "E_EXPECTED_INT"@[5] == 'E' && "E_EXPECTED_INT"@[6] == 'C' && "E_EXPECTED_INT"@[11] == 'I');
    assert("E_CMP_RHS"@.len() == 9 && "E_CMP_RHS"@[5] == '_' && "E_CMP_RHS"@[6] == 'R');
    assert("E_BOOL_CMP"@.len() == 10 && "E_BOOL_CMP"@[5] == 'L' && "E_BOOL_CMP"@[6] == '_');
    assert("E_RANGE_STEP_ZERO"@.len() == 17 && "E_RANGE_STEP_ZERO"@[5] == 'G' && "E_RANGE_STEP_ZERO"@[6] == 'E' && "E_RANGE_STEP_ZERO"@[11] == 'P');
    assert("E_RANGE_INFINITE"@.len() == 16 && "E_RANGE_INFINITE"@[5] == 'G' && "E_RANGE_INFINITE"@[6] == 'E' && "E_RANGE_INFINITE"@[11] == 'I');
    assert("E_TRAILING_COMMA"@.len() == 16 && "E_TRAILING_COMMA"@[5] == 'I' && "E_TRAILING_COMMA"@[6] == 'L' && "E_TRAILING_COMMA"@[11] == 'C');
    assert("E_TAKE_RANGE"@.len() == 12 && "E_TAKE_RANGE"@[5] == 'E' && "E_TAKE_RANGE"@[6] == '_' && "E_TAKE_RANGE"@[11] == 'E');
    assert("E_DROP_RANGE"@.len() == 12 && "E_DROP_RANGE"@[5] == 'P' && "E_DROP_RANGE"@[6] == '_' && "E_DROP_RANGE"@[11] == 'E');
    assert("E_EXPECTED_STAGE"@.len() == 16 && "E_EXPECTED_STAGE"@[5] == 'E' && "E_EXPECTED_STAGE"@[6] == 'C' && "E_EXPECTED_STAGE"@[11] == 'S');
    assert("E_EXPECTED_EOF"@.len() == 14 && "E_EXPECTED_EOF"@[5] == 'E' && "E_EXPECTED_EOF"@[6] == 'C' && "E_EXPECTED_EOF"@[11] == 'E');
    assert("E_HEADER"@.len() == 8 && "E_HEADER"@[5] == 'D' && "E_HEADER"@[6] == 'E');
    assert("E_BAD_MINUS"@.len() == 11 && "E_BAD_MINUS"@[5] == '_' && "E_BAD_MINUS"@[6] == 'M');
    assert("E_EXPECTED_PUNCT"@.len() == 16 && "E_EXPECTED_PUNCT"@[5] == 'E' && "E_EXPECTED_PUNCT"@[6] == 'C' && "E_EXPECTED_PUNCT"@[11] == 'P');
    assert("E_PRED_ATOM"@.len() == 11 && "E_PRED_ATOM"@[5] == 'D' && "E_PRED_ATOM"@[6] == '_');
    assert("E_BAD_INPUT_TY"@.len() == 14 && "E_BAD_INPUT_TY"@[5] == '_' && "E_BAD_INPUT_TY"@[6] == 'I' && "E_BAD_INPUT_TY"@[11] == '_');
    assert("E_BAD_SOURCE"@.len() == 12 && "E_BAD_SOURCE"@[5] == '_' && "E_BAD_SOURCE"@[6] == 'S' && "E_BAD_SOURCE"@[11] == 'E');
    assert("E_LIT_ATOM"@.len() == 10 && "E_LIT_ATOM"@[5] == '_' && "E_LIT_ATOM"@[6] == 'A');
    assert("E_SCAN_OP"@.len() == 9 && "E_SCAN_OP"@[5] == 'N' && "E_SCAN_OP"@[6] == '_');
    assert("E_REDUCE_OP"@.len() == 11 && "E_REDUCE_OP"@[5] == 'U' && "E_REDUCE_OP"@[6] == 'C');
    assert("E_BAD_STAGE"@.len() == 11 && "E_BAD_STAGE"@[5] == '_' && "E_BAD_STAGE"@[6] == 'S');
    assert("E_INT_PARSE"@.len() == 11 && "E_INT_PARSE"@[5] == '_' && "E_INT_PARSE"@[6] == 'P');
    assert("E_INT_RANGE"@.len() == 11 && "E_INT_RANGE"@[5] == '_' && "E_INT_RANGE"@[6] == 'R');
    assert("E_UNEXPECTED_CHAR"@.len() == 17 && "E_UNEXPECTED_CHAR"@[5] == 'X' && "E_UNEXPECTED_CHAR"@[6] == 'P' && "E_UNEXPECTED_CHAR"@[11] == 'D');
}


/// A lexing diagnostic carries the prose that the syntax codes prescribe.
proof fn lemma_lex_prose(cs: Seq<char>, i: int)
    ensures
        lex_from(cs, i) matches Err(x) ==> (lex_prose_from(cs, i).1 == parse_hint(x.code) && (parse_fixed_message(x.code) matches Some(m)
            ==> lex_prose_from(cs, i).0 == m)),
    decreases cs.len() - i,
{
    lemma_parse_prose();
    if 0 <= i < cs.len() {
        let c = cs[i];
        if is_space(c) || punct_token(c) is Some {
            lemma_lex_prose(cs, i + 1);
        } else if is_digit(c) || c == '-' {
            let neg = c == '-';
            if !(neg && (i + 1 >= cs.len() || !is_digit(cs[i + 1]))) {
                let num_start = if neg { i + 1 } else { i };
                crate::lex::lemma_run_ends(cs, num_start + 1);
                let end = crate::lex::digits_end(cs, num_start + 1);
                lemma_lex_prose(cs, end);
            }
        } else if is_ident_start(c) {
            crate::lex::lemma_run_ends(cs, i + 1);
            lemma_lex_prose(cs, crate::lex::ident_end(cs, i + 1));
        }
    }
}

/// Parses a whole `lir/1` program: an optional byte-order mark, the header line `lir/1`
/// (trailing carriage returns allowed), then a body holding one pipeline.
#[verifier::rlimit(40)]
pub fn parse_program(src: &str) -> (r: Result<Program, LirError>)
    ensures
        match (r, parse_program_spec(src@)) {
            (Ok(p), Ok(v)) => p@ == v,
            (Err(e), Err(x)) => e@ == x,
            _ => false,
        },
        r matches Err(x) ==> parse_prose_ok(x),
{
    proof {
        lemma_parse_prose();
    }
    let all = chars_of(src);
    let total = src.as_bytes().len();
    assert(utf8_len(all@) == total);
    let n0 = all.len();
    let t = if n0 > 0 && all[0] == '\u{feff}' { chars_between(&all, 1, n0) } else { chars_between(&all, 0, n0) };
    proof {
        assert(all@.drop_first() =~= all@.subrange(1, n0 as int));
        assert(all@ =~= all@.subrange(0, n0 as int));
        if n0 > 0 {
            lemma_utf8_split(all@, 0, 1, n0 as int);
        }
        assert(all@.subrange(0, 0) =~= Seq::<char>::empty());
    }
    let n = t.len();
    assert(t@ == without_bom(src@));
    assert(utf8_len(t@) <= usize::MAX);
    proof {
        assert(t@ =~= t@.subrange(0, n as int));
    }
    let (nl, he) = first_line_ends(&t);
    if !is_header(&t, he) {
        proof {
            assert(t@.take(he as int) =~= t@.subrange(0, he as int));
            lemma_utf8_split(t@, 0, he as int, n as int);
        }
        let hl = utf8_len_of(&t, 0, he);
        let end = if hl < 1 { 1 } else { hl };
        return Err(syntax_error(
            "E_HEADER",
            Span::new(0, end),
            string_of("first line must be exactly `lir/1`"),
            "Start the program with a line containing only lir/1",
        ));
    }
    let b = body_start(&t, nl);
    proof {
        if nl < n {
            assert(t@.take(nl as int) =~= t@.subrange(0, nl as int));
            lemma_utf8_split(t@, 0, nl as int, nl + 1);
            lemma_utf8_split(t@, 0, nl + 1, b as int);
            lemma_utf8_len_at_least(t@.subrange(nl as int, nl + 1));
        }
        lemma_utf8_split(t@, 0, b as int, n as int);
        lemma_utf8_len_at_least(t@.subrange(b as int, n as int));
    }
    let offset: usize = if nl < n { utf8_len_of(&t, 0, nl) + 1 } else { utf8_len_of(&t, 0, n) };
    assert(offset == body_offset(t@));
    assert(offset + utf8_len(t@.subrange(b as int, n as int)) <= utf8_len(t@));
    let body = chars_between(&t, b, n);
    let toks = match lex_chars(&body) {
        Ok(v) => v,
        Err(e) => {
            proof {
                lemma_lex_prose(body@, 0);
            }
            return Err(e);
        },
    };
    proof {
        lemma_utf8_len_at_least(body@);
        lemma_parser_ready(toks@, body@, offset as int);
    }
    let mut p = Parser { toks, i: 0, global_off: offset };
    let (source, stages) = p.parse_pipeline()?;
    let blen = utf8_len_of(&t, b, n);
    let end = offset + blen;
    Ok(Program { span: Span::new(0, end), source, stages })
}

} // verus!
