//! Static checks of an `lir/1` program: element types flowing through the pipeline,
//! literal ranges, and where `reduce` may stand.

use vstd::prelude::*;
use crate::ast::{stage_span, stage_span_of, CmpOp, CmpRhs, ElemTy, Expr, LitElem, Predicate, Program, ReduceOp, Source, Stage};
use crate::error::{lir_prose, type_err, type_error, ErrorView, LirError, Span};
use crate::interp::fits_i32;

verus! {

/// Whether a `lit` element is a bool.
pub open spec fn is_bool_elem(e: LitElem) -> bool {
    e is Bool
}

/// Element type of a `lit(...)` source: `bool` if all are bools, `i64` if all are integers and
/// one is `i64`, `i32` if all are `i32` (and for the empty list); mixing bools and integers is an error.
pub open spec fn lit_ty_spec(elems: Seq<LitElem>, span: Span) -> Result<ElemTy, ErrorView> {
    if elems.len() == 0 {
        Ok(ElemTy::I32)
    } else if is_bool_elem(elems[0]) {
        if forall|i: int| 0 <= i < elems.len() ==> is_bool_elem(#[trigger] elems[i]) {
            Ok(ElemTy::Bool)
        } else {
            Err(type_err("T_LIT_MIXED"@, span, None))
        }
    } else if forall|i: int| 0 <= i < elems.len() ==> !is_bool_elem(#[trigger] elems[i]) {
        if exists|i: int| 0 <= i < elems.len() && #[trigger] elems[i] is I64 {
            Ok(ElemTy::I64)
        } else {
            Ok(ElemTy::I32)
        }
    } else {
        Err(type_err("T_LIT_MIXED"@, span, None))
    }
}

/// Element type of the stream a source produces.
pub open spec fn source_ty_spec(src: Source) -> Result<ElemTy, ErrorView> {
    match src {
        Source::Input { ty, .. } => Ok(ty),
        Source::Range { .. } => Ok(ElemTy::I32),
        Source::Lit { elems, span } => lit_ty_spec(elems@, span),
    }
}

/// First violation in a filter predicate over a stream of type `ty` (left to right), if any.
pub open spec fn check_pred_spec(p: Predicate, ty: ElemTy, span: Span, si: usize) -> Option<ErrorView>
    decreases p,
{
    match p {
        Predicate::Or { left, right, .. } | Predicate::And { left, right, .. } => match check_pred_spec(*left, ty, span, si) {
            Some(e) => Some(e),
            None => check_pred_spec(*right, ty, span, si),
        },
        Predicate::Not { inner, .. } => check_pred_spec(*inner, ty, span, si),
        Predicate::Even { .. } | Predicate::Odd { .. } => if ty == ElemTy::Bool {
            Some(type_err("T_FILTER_EVEN_BOOL"@, span, Some(si)))
        } else {
            None
        },
        Predicate::Cmp { op, rhs, span: cspan } => {
            if ty == ElemTy::I32 && (rhs matches CmpRhs::Int(v) && !fits_i32(v as int)) {
                Some(type_err("T_CMP_RHS_RANGE"@, cspan, Some(si)))
            } else if ty == ElemTy::Bool {
                if op != CmpOp::Eq {
                    Some(type_err("T_BOOL_CMP_OP"@, span, Some(si)))
                } else if !(rhs is Bool) {
                    Some(type_err("T_BOOL_CMP_RHS"@, span, Some(si)))
                } else {
                    None
                }
            } else if rhs is Bool {
                Some(type_err("T_INT_CMP_BOOL"@, span, Some(si)))
            } else {
                None
            }
        },
    }
}

/// First integer literal of a `map` expression that does not fit an `i32` stream, if any.
pub open spec fn check_lits_spec(cur: ElemTy, e: Expr, si: usize) -> Option<ErrorView>
    decreases e,
{
    match e {
        Expr::Lit { v, span } => if cur == ElemTy::I32 && !fits_i32(v as int) {
            Some(type_err("T_LIT_RANGE"@, span, Some(si)))
        } else {
            None
        },
        Expr::Add { left, right, .. } | Expr::Sub { left, right, .. } | Expr::Mul { left, right, .. }
        | Expr::Div { left, right, .. } | Expr::Mod { left, right, .. } => match check_lits_spec(cur, *left, si) {
            Some(x) => Some(x),
            None => check_lits_spec(cur, *right, si),
        },
        Expr::Neg { inner, .. } => check_lits_spec(cur, *inner, si),
        Expr::Dot { .. } => None,
    }
}

/// `i64` if either operand is `i64`, else `i32`.
pub open spec fn widen_spec(a: ElemTy, b: ElemTy) -> ElemTy {
    if a == ElemTy::I64 || b == ElemTy::I64 { ElemTy::I64 } else { ElemTy::I32 }
}

/// Static type of a `map` expression over an integer stream of type `cur`.
pub open spec fn expr_ty_spec(cur: ElemTy, e: Expr) -> ElemTy
    decreases e,
{
    match e {
        Expr::Add { left, right, .. } | Expr::Sub { left, right, .. } | Expr::Mul { left, right, .. }
        | Expr::Div { left, right, .. } | Expr::Mod { left, right, .. } =>
            widen_spec(expr_ty_spec(cur, *left), expr_ty_spec(cur, *right)),
        Expr::Neg { inner, .. } => expr_ty_spec(cur, *inner),
        Expr::Dot { .. } => cur,
        Expr::Lit { .. } => cur,
    }
}

/// Stream type after a `map` stage, or its diagnostic.
pub open spec fn map_ty_spec(cur: ElemTy, e: Expr, span: Span, si: usize) -> Result<ElemTy, ErrorView> {
    if cur == ElemTy::Bool {
        Err(type_err("T_MAP_BOOL"@, span, Some(si)))
    } else {
        match check_lits_spec(cur, e, si) {
            Some(x) => Err(x),
            None => Ok(expr_ty_spec(cur, e)),
        }
    }
}

/// Diagnostic of a `scan` initializer on a stream of type `cur`, if any.
pub open spec fn check_scan_spec(init: i64, cur: ElemTy, span: Span, si: usize) -> Option<ErrorView> {
    match cur {
        ElemTy::I32 => if fits_i32(init as int) { None } else { Some(type_err("T_SCAN_INIT_RANGE"@, span, Some(si))) },
        ElemTy::I64 => None,
        ElemTy::Bool => Some(type_err("T_SCAN_BOOL"@, span, Some(si))),
    }
}

/// Diagnostic of a reducer on a stream of type `cur`, if any: only `count` applies to bools.
pub open spec fn check_reduce_spec(cur: ElemTy, op: ReduceOp, si: usize, span: Span) -> Option<ErrorView> {
    if op != ReduceOp::Count && cur == ElemTy::Bool {
        Some(type_err("T_REDUCE_BOOL"@, span, Some(si)))
    } else {
        None
    }
}

/// Outcome of checking `stages[i..]` given the current stream type and whether a scalar was produced.
pub open spec fn check_stages_from(cur: ElemTy, scalar: bool, stages: Seq<Stage>, i: int) -> Result<(), ErrorView>
    decreases stages.len() - i,
{
    if i < 0 || i >= stages.len() {
        Ok(())
    } else if scalar {
        Err(type_err("T_STAGE_AFTER_SCALAR"@, stage_span_of(stages[i]), Some(i as usize)))
    } else {
        let st = stages[i];
        let si = i as usize;
        match st {
            Stage::Filter { pred, span } => match check_pred_spec(pred, cur, span, si) {
                Some(e) => Err(e),
                None => check_stages_from(cur, false, stages, i + 1),
            },
            Stage::MapEach { expr, span } => match map_ty_spec(cur, expr, span, si) {
                Err(e) => Err(e),
                Ok(t) => check_stages_from(t, false, stages, i + 1),
            },
            Stage::Scan { init, span, .. } => match check_scan_spec(init, cur, span, si) {
                Some(e) => Err(e),
                None => check_stages_from(cur, false, stages, i + 1),
            },
            Stage::Reduce { op, span } => match check_reduce_spec(cur, op, si, span) {
                Some(e) => Err(e),
                None => check_stages_from(cur, true, stages, i + 1),
            },
            _ => check_stages_from(cur, false, stages, i + 1),
        }
    }
}

/// The message and hint that go with each type diagnostic code.
pub open spec fn type_prose(code: Seq<char>) -> (Seq<char>, Seq<char>) {
    if code == "T_STAGE_AFTER_SCALAR"@ {
        ("no stages allowed after reduce"@, "Remove trailing stages after reduce."@)
    } else if code == "T_LIT_MIXED"@ {
        ("lit() elements must all have the same type"@, "Do not mix bool and integer literals."@)
    } else if code == "T_FILTER_EVEN_BOOL"@ {
        ("even/odd require integer stream"@, "Use eq true / eq false on bool streams."@)
    } else if code == "T_CMP_RHS_RANGE"@ {
        ("comparison literal does not fit i32 stream"@, "Use a smaller literal or input:i64."@)
    } else if code == "T_BOOL_CMP_OP"@ {
        ("bool streams only support `eq` comparisons"@, "Use `eq true` or `eq false`."@)
    } else if code == "T_BOOL_CMP_RHS"@ {
        ("bool comparison requires `true` or `false`"@, "Use `eq true` or `eq false`."@)
    } else if code == "T_INT_CMP_BOOL"@ {
        ("integer stream comparison cannot use bool literal"@, "Use integer right-hand side, e.g. `gt 10`."@)
    } else if code == "T_MAP_BOOL"@ {
        ("map is not defined for bool streams in v1"@, "Filter bools then reduce count, or use integer streams."@)
    } else if code == "T_MAP_TO_BOOL"@ {
        ("map expression must produce integer type in v1"@, "Avoid comparisons in map; use filter for predicates."@)
    } else if code == "T_LIT_RANGE"@ {
        ("integer literal does not fit i32 stream"@, "Use input:i64 or a smaller literal."@)
    } else if code == "T_SCAN_INIT_RANGE"@ {
        ("scan initializer does not fit i32 stream type"@, "Use a smaller initializer or switch to input:i64."@)
    } else if code == "T_SCAN_BOOL"@ {
        ("scan requires integer stream"@, "Use integer streams with scan."@)
    } else if code == "T_REDUCE_BOOL"@ {
        ("this reducer is not supported on bool streams in v1"@, "Use reduce count, or map to integers first (not available for bool in v1)."@)
    } else {
        (Seq::empty(), Seq::empty())
    }
}

proof fn lemma_type_prose()
    ensures
        type_prose("T_STAGE_AFTER_SCALAR"@) == ("no stages allowed after reduce"@, "Remove trailing stages after reduce."@),
        type_prose("T_LIT_MIXED"@) == ("lit() elements must all have the same type"@, "Do not mix bool and integer literals."@),
        type_prose("T_FILTER_EVEN_BOOL"@) == ("even/odd require integer stream"@, "Use eq true / eq false on bool streams."@),
        type_prose("T_CMP_RHS_RANGE"@) == ("comparison literal does not fit i32 stream"@, "Use a smaller literal or input:i64."@),
        type_prose("T_BOOL_CMP_OP"@) == ("bool streams only support `eq` comparisons"@, "Use `eq true` or `eq false`."@),
        type_prose("T_BOOL_CMP_RHS"@) == ("bool comparison requires `true` or `false`"@, "Use `eq true` or `eq false`."@),
        type_prose("T_INT_CMP_BOOL"@) == ("integer stream comparison cannot use bool literal"@, "Use integer right-hand side, e.g. `gt 10`."@),
        type_prose("T_MAP_BOOL"@) == ("map is not defined for bool streams in v1"@, "Filter bools then reduce count, or use integer streams."@),
        type_prose("T_MAP_TO_BOOL"@) == ("map expression must produce integer type in v1"@, "Avoid comparisons in map; use filter for predicates."@),
        type_prose("T_LIT_RANGE"@) == ("integer literal does not fit i32 stream"@, "Use input:i64 or a smaller literal."@),
        type_prose("T_SCAN_INIT_RANGE"@) == ("scan initializer does not fit i32 stream type"@, "Use a smaller initializer or switch to input:i64."@),
        type_prose("T_SCAN_BOOL"@) == ("scan requires integer stream"@, "Use integer streams with scan."@),
        type_prose("T_REDUCE_BOOL"@) == ("this reducer is not supported on bool streams in v1"@, "Use reduce count, or map to integers first (not available for bool in v1)."@),
{
    reveal_strlit("T_STAGE_AFTER_SCALAR");
    reveal_strlit("T_LIT_MIXED");
    reveal_strlit("T_FILTER_EVEN_BOOL");
    reveal_strlit("T_CMP_RHS_RANGE");
    reveal_strlit("T_BOOL_CMP_OP");
    reveal_strlit("T_BOOL_CMP_RHS");
    reveal_strlit("T_INT_CMP_BOOL");
    reveal_strlit("T_MAP_BOOL");
    reveal_strlit("T_MAP_TO_BOOL");
    reveal_strlit("T_LIT_RANGE");
    reveal_strlit("T_SCAN_INIT_RANGE");
    reveal_strlit("T_SCAN_BOOL");
    reveal_strlit("T_REDUCE_BOOL");
    assert("T_STAGE_AFTER_SCALAR"@.len() == 20 && "T_STAGE_AFTER_SCALAR"@[6] == 'E');
    assert("T_LIT_MIXED"@.len() == 11 && "T_LIT_MIXED"@[6] == 'M');
    assert("T_FILTER_EVEN_BOOL"@.len() == 18 && "T_FILTER_EVEN_BOOL"@[6] == 'E');
    assert("T_CMP_RHS_RANGE"@.len() == 15 && "T_CMP_RHS_RANGE"@[6] == 'R');
    assert("T_BOOL_CMP_OP"@.len() == 13 && "T_BOOL_CMP_OP"@[6] == '_');
    assert("T_BOOL_CMP_RHS"@.len() == 14 && "T_BOOL_CMP_RHS"@[6] == '_');
    assert("T_INT_CMP_BOOL"@.len() == 14 && "T_INT_CMP_BOOL"@[6] == 'C');
    assert("T_MAP_BOOL"@.len() == 10 && "T_MAP_BOOL"@[6] == 'B');
    assert("T_MAP_TO_BOOL"@.len() == 13 && "T_MAP_TO_BOOL"@[6] == 'T');
    assert("T_LIT_RANGE"@.len() == 11 && "T_LIT_RANGE"@[6] == 'R');
    assert("T_SCAN_INIT_RANGE"@.len() == 17 && "T_SCAN_INIT_RANGE"@[6] == '_');
    assert("T_SCAN_BOOL"@.len() == 11 && "T_SCAN_BOOL"@[6] == '_');
    assert("T_REDUCE_BOOL"@.len() == 13 && "T_REDUCE_BOOL"@[6] == 'C');
}

/// Outcome of type-checking a program.
pub open spec fn check_program_spec(p: Program) -> Result<(), ErrorView> {
    match source_ty_spec(p.source) {
        Err(e) => Err(e),
        Ok(t) => check_stages_from(t, false, p.stages@, 0),
    }
}

/// Type-checks a program: no stage after `reduce`, predicates, expressions, scans and
/// reducers fit the element type flowing into them.
pub fn check_program(p: &Program) -> (r: Result<(), LirError>)
    ensures
        match (r, check_program_spec(*p)) {
            (Ok(_), Ok(_)) => true,
            (Err(e), Err(v)) => e@ == v && lir_prose(e) == type_prose(v.code),
            _ => false,
        },
        r matches Err(e) ==> lir_prose(e) == type_prose(e@.code),
{
    proof {
        lemma_type_prose();
    }
    let mut cur = source_elem_ty(&p.source)?;
    let mut scalar = false;
    let mut idx: usize = 0;
    while idx < p.stages.len()
        invariant
            idx <= p.stages@.len(),
            check_program_spec(*p) == check_stages_from(cur, scalar, p.stages@, idx as int),
        decreases p.stages@.len() - idx,
    {
        let st = &p.stages[idx];
        if scalar {
            return Err(type_error(
                "T_STAGE_AFTER_SCALAR",
                stage_span(st),
                "no stages allowed after reduce",
                "Remove trailing stages after reduce.",
                Some(idx),
            ));
        }
        match st {
            Stage::Filter { pred, span } => {
                check_predicate(pred, cur, *span, idx)?;
            },
            Stage::MapEach { expr, span } => {
                cur = infer_map_ty(cur, expr, *span, idx)?;
            },
            Stage::Scan { init, op: _, span } => {
                check_scan_init(*init, cur, *span, idx)?;
            },
            Stage::Reduce { op, span: _ } => {
                check_reduce_ok(cur, *op, idx, stage_span(st))?;
                scalar = true;
            },
            Stage::Take { .. } | Stage::Drop { .. } | Stage::Id { .. } => {},
        }
        idx = idx + 1;
    }
    Ok(())
}

/// Element type of the stream produced by `source` (before any stages).
pub fn source_stream_ty(src: &Source) -> (r: Result<ElemTy, LirError>)
    ensures
        match (r, source_ty_spec(*src)) {
            (Ok(a), Ok(b)) => a == b,
            (Err(e), Err(v)) => e@ == v && lir_prose(e) == type_prose(v.code),
            _ => false,
        },
        r matches Err(e) ==> lir_prose(e) == type_prose(e@.code),
{
    proof {
        lemma_type_prose();
    }
    source_elem_ty(src)
}

fn source_elem_ty(src: &Source) -> (r: Result<ElemTy, LirError>)
    ensures
        match (r, source_ty_spec(*src)) {
            (Ok(a), Ok(b)) => a == b,
            (Err(e), Err(v)) => e@ == v && lir_prose(e) == type_prose(v.code),
            _ => false,
        },
        r matches Err(e) ==> lir_prose(e) == type_prose(e@.code),
{
    proof {
        lemma_type_prose();
    }
    match src {
        Source::Input { ty, .. } => Ok(*ty),
        Source::Range { .. } => Ok(ElemTy::I32),
        Source::Lit { elems, span } => lit_homogeneous_ty(elems, *span),
    }
}

fn lit_homogeneous_ty(elems: &Vec<LitElem>, span: Span) -> (r: Result<ElemTy, LirError>)
    ensures
        match (r, lit_ty_spec(elems@, span)) {
            (Ok(a), Ok(b)) => a == b,
            (Err(e), Err(v)) => e@ == v,
            _ => false,
        },
        r matches Err(e) ==> lir_prose(e) == type_prose(e@.code),
{
    proof {
        lemma_type_prose();
    }
    if elems.len() == 0 {
        return Ok(ElemTy::I32);
    }
    match elems[0] {
        LitElem::Bool(_) => {
            let mut i: usize = 0;
            while i < elems.len()
                invariant
                    i <= elems@.len(),
                    elems@.len() > 0,
                    is_bool_elem(elems@[0]),
                    forall|j: int| 0 <= j < i ==> is_bool_elem(#[trigger] elems@[j]),
                decreases elems@.len() - i,
            {
                if !matches!(elems[i], LitElem::Bool(_)) {
                    assert(!is_bool_elem(elems@[i as int]));
                    return Err(mixed_lit(span));
                }
                i = i + 1;
            }
            Ok(ElemTy::Bool)
        },
        LitElem::I32(_) | LitElem::I64(_) => {
            let mut any64 = false;
            let mut i: usize = 0;
            while i < elems.len()
                invariant
                    i <= elems@.len(),
                    !is_bool_elem(elems@[0]),
                    forall|j: int| 0 <= j < i ==> !is_bool_elem(#[trigger] elems@[j]),
                    any64 == exists|j: int| 0 <= j < i && #[trigger] elems@[j] is I64,
                decreases elems@.len() - i,
            {
                match elems[i] {
                    LitElem::I32(_) => {},
                    LitElem::I64(_) => {
                        any64 = true;
                    },
                    _ => {
                        return Err(mixed_lit(span));
                    },
                }
                i = i + 1;
            }
            if any64 {
                Ok(ElemTy::I64)
            } else {
                Ok(ElemTy::I32)
            }
        },
    }
}

fn mixed_lit(span: Span) -> (e: LirError)
    ensures
        e@ == type_err("T_LIT_MIXED"@, span, None),
        lir_prose(e) == type_prose(e@.code),
{
    proof {
        lemma_type_prose();
    }
    type_error("T_LIT_MIXED", span, "lit() elements must all have the same type", "Do not mix bool and integer literals.", None)
}

fn check_predicate(pred: &Predicate, ty: ElemTy, span: Span, stage_index: usize) -> (r: Result<(), LirError>)
    ensures
        match check_pred_spec(*pred, ty, span, stage_index) {
            Some(v) => r matches Err(e) && e@ == v,
            None => r is Ok,
        },
        r matches Err(e) ==> lir_prose(e) == type_prose(e@.code),
    decreases pred,
{
    proof {
        lemma_type_prose();
    }
    match pred {
        Predicate::Or { left, right, .. } | Predicate::And { left, right, .. } => {
            check_predicate(left, ty, span, stage_index)?;
            check_predicate(right, ty, span, stage_index)?;
        },
        Predicate::Not { inner, .. } => check_predicate(inner, ty, span, stage_index)?,
        Predicate::Even { .. } | Predicate::Odd { .. } => {
            if ty == ElemTy::Bool {
                return Err(type_error(
                    "T_FILTER_EVEN_BOOL",
                    span,
                    "even/odd require integer stream",
                    "Use eq true / eq false on bool streams.",
                    Some(stage_index),
                ));
            }
        },
        Predicate::Cmp { op, rhs, span: cspan } => {
            if let CmpRhs::Int(v) = rhs {
                if ty == ElemTy::I32 && (*v < i32::MIN as i64 || *v > i32::MAX as i64) {
                    return Err(type_error(
                        "T_CMP_RHS_RANGE",
                        *cspan,
                        "comparison literal does not fit i32 stream",
                        "Use a smaller literal or input:i64.",
                        Some(stage_index),
                    ));
                }
            }
            if ty == ElemTy::Bool {
                if *op != CmpOp::Eq {
                    return Err(type_error(
                        "T_BOOL_CMP_OP",
                        span,
                        "bool streams only support `eq` comparisons",
                        "Use `eq true` or `eq false`.",
                        Some(stage_index),
                    ));
                }
                if !matches!(rhs, CmpRhs::Bool(_)) {
                    return Err(type_error(
                        "T_BOOL_CMP_RHS",
                        span,
                        "bool comparison requires `true` or `false`",
                        "Use `eq true` or `eq false`.",
                        Some(stage_index),
                    ));
                }
            } else if matches!(rhs, CmpRhs::Bool(_)) {
                return Err(type_error(
                    "T_INT_CMP_BOOL",
                    span,
                    "integer stream comparison cannot use bool literal",
                    "Use integer right-hand side, e.g. `gt 10`.",
                    Some(stage_index),
                ));
            }
        },
    }
    Ok(())
}

fn infer_map_ty(cur: ElemTy, expr: &Expr, span: Span, stage_index: usize) -> (r: Result<ElemTy, LirError>)
    ensures
        match (r, map_ty_spec(cur, *expr, span, stage_index)) {
            (Ok(a), Ok(b)) => a == b,
            (Err(e), Err(v)) => e@ == v,
            _ => false,
        },
        r matches Err(e) ==> lir_prose(e) == type_prose(e@.code),
{
    proof {
        lemma_type_prose();
    }
    if cur == ElemTy::Bool {
        return Err(type_error(
            "T_MAP_BOOL",
            span,
            "map is not defined for bool streams in v1",
            "Filter bools then reduce count, or use integer streams.",
            Some(stage_index),
        ));
    }
    check_literal_ranges(cur, expr, span, stage_index)?;
    let out = expr_result_ty(cur, expr);
    proof { lemma_expr_ty_not_bool(cur, *expr); }
    if out == ElemTy::Bool {
        return Err(type_error(
            "T_MAP_TO_BOOL",
            span,
            "map expression must produce integer type in v1",
            "Avoid comparisons in map; use filter for predicates.",
            Some(stage_index),
        ));
    }
    Ok(out)
}

/// An integer stream stays an integer stream through any `map` expression.
proof fn lemma_expr_ty_not_bool(cur: ElemTy, e: Expr)
    requires
        cur != ElemTy::Bool,
    ensures
        expr_ty_spec(cur, e) != ElemTy::Bool,
    decreases e,
{
    match e {
        Expr::Add { left, right, .. } | Expr::Sub { left, right, .. } | Expr::Mul { left, right, .. }
        | Expr::Div { left, right, .. } | Expr::Mod { left, right, .. } => {},
        Expr::Neg { inner, .. } => lemma_expr_ty_not_bool(cur, *inner),
        _ => {},
    }
}

fn check_literal_ranges(cur: ElemTy, e: &Expr, stage_span: Span, stage_index: usize) -> (r: Result<(), LirError>)
    ensures
        match check_lits_spec(cur, *e, stage_index) {
            Some(v) => r matches Err(x) && x@ == v,
            None => r is Ok,
        },
        r matches Err(e) ==> lir_prose(e) == type_prose(e@.code),
    decreases e,
{
    proof {
        lemma_type_prose();
    }
    match e {
        Expr::Lit { v, span, .. } => {
            if cur == ElemTy::I32 && (*v < i32::MIN as i64 || *v > i32::MAX as i64) {
                return Err(type_error(
                    "T_LIT_RANGE",
                    *span,
                    "integer literal does not fit i32 stream",
                    "Use input:i64 or a smaller literal.",
                    Some(stage_index),
                ));
            }
            Ok(())
        },
        Expr::Add { left, right, .. } | Expr::Sub { left, right, .. } | Expr::Mul { left, right, .. }
        | Expr::Div { left, right, .. } | Expr::Mod { left, right, .. } => {
            check_literal_ranges(cur, left, stage_span, stage_index)?;
            check_literal_ranges(cur, right, stage_span, stage_index)
        },
        Expr::Neg { inner, .. } => check_literal_ranges(cur, inner, stage_span, stage_index),
        Expr::Dot { .. } => Ok(()),
    }
}

fn expr_result_ty(cur: ElemTy, e: &Expr) -> (t: ElemTy)
    requires
        cur != ElemTy::Bool,
    ensures
        t == expr_ty_spec(cur, *e),
    decreases e,
{
    match e {
        Expr::Add { left, right, .. } | Expr::Sub { left, right, .. } | Expr::Mul { left, right, .. }
        | Expr::Div { left, right, .. } | Expr::Mod { left, right, .. } => {
            let a = expr_result_ty(cur, left);
            let b = expr_result_ty(cur, right);
            widen(a, b)
        },
        Expr::Neg { inner, .. } => expr_result_ty(cur, inner),
        Expr::Dot { .. } => cur,
        Expr::Lit { .. } => cur,
    }
}

fn widen(a: ElemTy, b: ElemTy) -> (t: ElemTy)
    ensures
        t == widen_spec(a, b),
{
    if a == ElemTy::I64 || b == ElemTy::I64 {
        ElemTy::I64
    } else {
        ElemTy::I32
    }
}

fn check_scan_init(init: i64, cur: ElemTy, span: Span, stage_index: usize) -> (r: Result<(), LirError>)
    ensures
        match check_scan_spec(init, cur, span, stage_index) {
            Some(v) => r matches Err(x) && x@ == v,
            None => r is Ok,
        },
        r matches Err(e) ==> lir_prose(e) == type_prose(e@.code),
{
    proof {
        lemma_type_prose();
    }
    match cur {
        ElemTy::I32 => {
            if init < i32::MIN as i64 || init > i32::MAX as i64 {
                return Err(type_error(
                    "T_SCAN_INIT_RANGE",
                    span,
                    "scan initializer does not fit i32 stream type",
                    "Use a smaller initializer or switch to input:i64.",
                    Some(stage_index),
                ));
            }
        },
        ElemTy::I64 => {},
        ElemTy::Bool => {
            return Err(type_error(
                "T_SCAN_BOOL",
                span,
                "scan requires integer stream",
                "Use integer streams with scan.",
                Some(stage_index),
            ));
        },
    }
    Ok(())
}

fn check_reduce_ok(cur: ElemTy, op: ReduceOp, stage_index: usize, span: Span) -> (r: Result<(), LirError>)
    ensures
        match check_reduce_spec(cur, op, stage_index, span) {
            Some(v) => r matches Err(x) && x@ == v,
            None => r is Ok,
        },
        r matches Err(e) ==> lir_prose(e) == type_prose(e@.code),
{
    proof {
        lemma_type_prose();
    }
    match op {
        ReduceOp::Count => Ok(()),
        _ => {
            if cur == ElemTy::Bool {
                Err(type_error(
                    "T_REDUCE_BOOL",
                    span,
                    "this reducer is not supported on bool streams in v1",
                    "Use reduce count, or map to integers first (not available for bool in v1).",
                    Some(stage_index),
                ))
            } else {
                Ok(())
            }
        },
    }
}

} // verus!

