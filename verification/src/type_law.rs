//! What the type checker guarantees of a run: a checked program never reaches the
//! interpreter's internal `R_INDEX` diagnostic.

use vstd::prelude::*;
use crate::ast::{ElemTy, Expr, LitElem, Predicate, Program, ReduceOp, ScanOp, Source, Stage};
use crate::error::{ErrorView, Span};
use crate::interp::{
    arith_spec, divmod_spec, eval_expr_spec, eval_pred_spec, filter_from, first_mismatch_from, fold_from, lit_has_i64,
    lit_vals, map_from, minmax_from, minmax_spec, neg_spec, range_from, reduce_spec, run_program_spec, run_stage_spec,
    run_stages_from, scan_from, scan_init_spec, source_elem_ty, source_spec, val_has_ty, Fault, Flow, Val,
};
use crate::types::{
    check_lits_spec, check_pred_spec, check_program_spec, check_reduce_spec, check_scan_spec, check_stages_from,
    expr_ty_spec, is_bool_elem, lit_ty_spec, map_ty_spec, source_ty_spec,
};

verus! {

/// Every value of `vs` has type `ty`.
pub open spec fn typed(vs: Seq<Val>, ty: ElemTy) -> bool {
    forall|k: int| 0 <= k < vs.len() ==> val_has_ty(#[trigger] vs[k], ty)
}

/// A diagnostic other than the internal `R_INDEX` one.
pub open spec fn not_internal(e: ErrorView) -> bool {
    e.code != "R_INDEX"@
}

proof fn lemma_codes()
    ensures
        "R_INTEGER_OVERFLOW"@ != "R_INDEX"@,
        "R_DIV_BY_ZERO"@ != "R_INDEX"@,
        "R_REDUCE_EMPTY_MINMAX"@ != "R_INDEX"@,
        "R_SCAN_INIT_RANGE"@ != "R_INDEX"@,
        "R_RANGE_STEP"@ != "R_INDEX"@,
        "R_RANGE_ELEM_RANGE"@ != "R_INDEX"@,
        "R_INPUT_TY"@ != "R_INDEX"@,
{
    reveal_strlit("R_INTEGER_OVERFLOW");
    reveal_strlit("R_DIV_BY_ZERO");
    reveal_strlit("R_REDUCE_EMPTY_MINMAX");
    reveal_strlit("R_SCAN_INIT_RANGE");
    reveal_strlit("R_RANGE_STEP");
    reveal_strlit("R_RANGE_ELEM_RANGE");
    reveal_strlit("R_INPUT_TY");
    reveal_strlit("R_INDEX");
    assert("R_INDEX"@.len() == 7);
}

proof fn lemma_arith_typed(op: ScanOp, a: Val, b: Val, ty: ElemTy)
    requires
        ty != ElemTy::Bool,
        val_has_ty(a, ty),
        val_has_ty(b, ty),
    ensures
        match arith_spec(op, a, b) {
            Ok(v) => val_has_ty(v, ty),
            Err(f) => !(f is Mismatch),
        },
{
}

/// Evaluating a checked `map` expression on a value of the stream's type gives a value of
/// that type, or an overflow or division by zero.
proof fn lemma_expr_typed(e: Expr, x: Val, ty: ElemTy, si: usize)
    requires
        ty != ElemTy::Bool,
        val_has_ty(x, ty),
        check_lits_spec(ty, e, si) is None,
    ensures
        match eval_expr_spec(e, x) {
            Ok(v) => val_has_ty(v, ty),
            Err(f) => !(f is Mismatch),
        },
    decreases e,
{
    match e {
        Expr::Add { left, right, .. } | Expr::Sub { left, right, .. } | Expr::Mul { left, right, .. } => {
            lemma_expr_typed(*left, x, ty, si);
            lemma_expr_typed(*right, x, ty, si);
            if let (Ok(a), Ok(b)) = (eval_expr_spec(*left, x), eval_expr_spec(*right, x)) {
                lemma_arith_typed(ScanOp::Add, a, b, ty);
                lemma_arith_typed(ScanOp::Sub, a, b, ty);
                lemma_arith_typed(ScanOp::Mul, a, b, ty);
            }
        },
        Expr::Div { left, right, .. } | Expr::Mod { left, right, .. } => {
            lemma_expr_typed(*left, x, ty, si);
            lemma_expr_typed(*right, x, ty, si);
        },
        Expr::Neg { inner, .. } => {
            lemma_expr_typed(*inner, x, ty, si);
        },
        _ => {},
    }
}

/// A checked predicate evaluates on every value of the stream's type.
pub(crate) proof fn lemma_pred_ok(p: Predicate, v: Val, ty: ElemTy, span: Span, si: usize)
    requires
        val_has_ty(v, ty),
        check_pred_spec(p, ty, span, si) is None,
    ensures
        eval_pred_spec(p, v, ty) is Ok,
    decreases p,
{
    match p {
        Predicate::Or { left, right, .. } | Predicate::And { left, right, .. } => {
            lemma_pred_ok(*left, v, ty, span, si);
            lemma_pred_ok(*right, v, ty, span, si);
        },
        Predicate::Not { inner, .. } => {
            lemma_pred_ok(*inner, v, ty, span, si);
        },
        _ => {},
    }
}

proof fn lemma_filter_typed(p: Predicate, vs: Seq<Val>, ty: ElemTy, span: Span, si: usize, i: int)
    requires
        0 <= i <= vs.len(),
        typed(vs, ty),
        check_pred_spec(p, ty, span, si) is None,
    ensures
        filter_from(p, vs, ty, span, si, i) matches Ok(out) && typed(out, ty),
    decreases vs.len() - i,
{
    if i < vs.len() {
        lemma_pred_ok(p, vs[i], ty, span, si);
        lemma_filter_typed(p, vs, ty, span, si, i + 1);
        let rest = filter_from(p, vs, ty, span, si, i + 1)->Ok_0;
        let keep = eval_pred_spec(p, vs[i], ty)->Ok_0;
        let out = (if keep { seq![vs[i]] } else { Seq::<Val>::empty() }) + rest;
        assert forall|k: int| 0 <= k < out.len() implies val_has_ty(#[trigger] out[k], ty) by {
            if keep && k == 0 {
            } else {
                assert(out[k] == rest[if keep { k - 1 } else { k }]);
            }
        }
    }
}

proof fn lemma_map_typed(e: Expr, vs: Seq<Val>, ty: ElemTy, span: Span, si: usize, i: int)
    requires
        0 <= i <= vs.len(),
        ty != ElemTy::Bool,
        typed(vs, ty),
        check_lits_spec(ty, e, si) is None,
    ensures
        match map_from(e, vs, span, si, i) {
            Ok(out) => typed(out, ty),
            Err(x) => not_internal(x),
        },
    decreases vs.len() - i,
{
    lemma_codes();
    if i < vs.len() {
        lemma_expr_typed(e, vs[i], ty, si);
        lemma_map_typed(e, vs, ty, span, si, i + 1);
        if let Ok(y) = eval_expr_spec(e, vs[i]) {
            if let Ok(rest) = map_from(e, vs, span, si, i + 1) {
                let out = seq![y] + rest;
                assert forall|k: int| 0 <= k < out.len() implies val_has_ty(#[trigger] out[k], ty) by {
                    if k > 0 {
                        assert(out[k] == rest[k - 1]);
                    }
                }
            }
        }
    }
}

proof fn lemma_scan_typed(op: ScanOp, acc: Val, vs: Seq<Val>, ty: ElemTy, span: Span, si: usize, i: int)
    requires
        0 <= i <= vs.len(),
        ty != ElemTy::Bool,
        typed(vs, ty),
        val_has_ty(acc, ty),
    ensures
        match scan_from(op, acc, vs, span, si, i) {
            Ok(out) => typed(out, ty),
            Err(x) => not_internal(x),
        },
    decreases vs.len() - i,
{
    lemma_codes();
    if i < vs.len() {
        lemma_arith_typed(op, acc, vs[i], ty);
        if let Ok(a2) = arith_spec(op, acc, vs[i]) {
            lemma_scan_typed(op, a2, vs, ty, span, si, i + 1);
            if let Ok(rest) = scan_from(op, a2, vs, span, si, i + 1) {
                let out = seq![a2] + rest;
                assert forall|k: int| 0 <= k < out.len() implies val_has_ty(#[trigger] out[k], ty) by {
                    if k > 0 {
                        assert(out[k] == rest[k - 1]);
                    }
                }
            }
        }
    }
}

proof fn lemma_fold_typed(op: ScanOp, acc: Val, vs: Seq<Val>, ty: ElemTy, span: Span, si: usize, i: int)
    requires
        0 <= i <= vs.len(),
        ty != ElemTy::Bool,
        typed(vs, ty),
        val_has_ty(acc, ty),
    ensures
        fold_from(op, acc, vs, span, si, i) matches Err(x) ==> not_internal(x),
    decreases vs.len() - i,
{
    lemma_codes();
    if i < vs.len() {
        lemma_arith_typed(op, acc, vs[i], ty);
        if let Ok(a2) = arith_spec(op, acc, vs[i]) {
            lemma_fold_typed(op, a2, vs, ty, span, si, i + 1);
        }
    }
}

proof fn lemma_minmax_typed(is_min: bool, acc: Val, vs: Seq<Val>, ty: ElemTy, i: int)
    requires
        0 <= i <= vs.len(),
        ty != ElemTy::Bool,
        typed(vs, ty),
        val_has_ty(acc, ty),
    ensures
        minmax_from(is_min, acc, vs, i) is Ok,
    decreases vs.len() - i,
{
    if i < vs.len() {
        let a2 = minmax_spec(is_min, acc, vs[i])->0;
        lemma_minmax_typed(is_min, a2, vs, ty, i + 1);
    }
}

/// A checked stage on a stream of its type gives a stream of that type (or, for `reduce`,
/// a value), or stops with a diagnostic other than `R_INDEX`.
proof fn lemma_stage_typed(vs: Seq<Val>, ty: ElemTy, stages: Seq<Stage>, i: int)
    requires
        0 <= i < stages.len(),
        typed(vs, ty),
        check_stages_from(ty, false, stages, i) is Ok,
    ensures
        match run_stage_spec(Flow::Stream(vs), ty, stages[i], i as usize) {
            Ok(Flow::Stream(out)) => typed(out, ty) && !(stages[i] is Reduce),
            Ok(Flow::Scalar(_)) => stages[i] is Reduce,
            Err(x) => not_internal(x),
        },
{
    lemma_codes();
    let st = stages[i];
    let si = i as usize;
    let span = crate::ast::stage_span_of(st);
    match st {
        Stage::Filter { pred, .. } => {
            lemma_filter_typed(pred, vs, ty, span, si, 0);
        },
        Stage::MapEach { expr, .. } => {
            lemma_map_typed(expr, vs, ty, span, si, 0);
        },
        Stage::Scan { init, op, .. } => {
            if let Ok(acc) = scan_init_spec(init, ty, span, si) {
                lemma_scan_typed(op, acc, vs, ty, span, si, 0);
                if let Ok(out) = scan_from(op, acc, vs, span, si, 0) {
                    let o = seq![acc] + out;
                    assert forall|k: int| 0 <= k < o.len() implies val_has_ty(#[trigger] o[k], ty) by {
                        if k > 0 {
                            assert(o[k] == out[k - 1]);
                        }
                    }
                }
            }
        },
        Stage::Reduce { op, .. } => {
            if vs.len() > 0 && ty != ElemTy::Bool {
                lemma_fold_typed(ScanOp::Add, vs[0], vs, ty, span, si, 1);
                lemma_fold_typed(ScanOp::Mul, vs[0], vs, ty, span, si, 1);
                lemma_minmax_typed(true, vs[0], vs, ty, 1);
                lemma_minmax_typed(false, vs[0], vs, ty, 1);
            }
        },
        Stage::Take { n, .. } => {
            if (n as int) < vs.len() {
                let o = vs.take(n as int);
                assert forall|k: int| 0 <= k < o.len() implies val_has_ty(#[trigger] o[k], ty) by {
                    assert(o[k] == vs[k]);
                }
            }
        },
        Stage::Drop { n, .. } => {
            if (n as int) <= vs.len() {
                let o = vs.skip(n as int);
                assert forall|k: int| 0 <= k < o.len() implies val_has_ty(#[trigger] o[k], ty) by {
                    assert(o[k] == vs[k + n]);
                }
            }
        },
        Stage::Id { .. } => {},
    }
}

/// A `map` keeps the element type of an integer stream.
proof fn lemma_expr_ty_keeps(cur: ElemTy, e: Expr)
    requires
        cur != ElemTy::Bool,
    ensures
        expr_ty_spec(cur, e) == cur,
    decreases e,
{
    match e {
        Expr::Add { left, right, .. } | Expr::Sub { left, right, .. } | Expr::Mul { left, right, .. }
        | Expr::Div { left, right, .. } | Expr::Mod { left, right, .. } => {
            lemma_expr_ty_keeps(cur, *left);
            lemma_expr_ty_keeps(cur, *right);
        },
        Expr::Neg { inner, .. } => {
            lemma_expr_ty_keeps(cur, *inner);
        },
        _ => {},
    }
}

/// Running the checked stages `stages[i..]` on a stream of type `ty`.
proof fn lemma_stages_typed(flow: Flow, ty: ElemTy, scalar: bool, stages: Seq<Stage>, i: int)
    requires
        0 <= i <= stages.len(),
        check_stages_from(ty, scalar, stages, i) is Ok,
        scalar ==> flow is Scalar,
        !scalar ==> (flow matches Flow::Stream(vs) && typed(vs, ty)),
    ensures
        run_stages_from(flow, ty, stages, i) matches Err(x) ==> not_internal(x),
    decreases stages.len() - i,
{
    if i < stages.len() {
        let st = stages[i];
        let si = i as usize;
        if let Flow::Stream(vs) = flow {
            lemma_stage_typed(vs, ty, stages, i);
            if let Stage::MapEach { expr, .. } = st {
                lemma_expr_ty_keeps(ty, expr);
            }
            if let Ok(f2) = run_stage_spec(flow, ty, st, si) {
                lemma_stages_typed(f2, ty, st is Reduce, stages, i + 1);
            }
        }
    }
}

proof fn lemma_input_typed(ty: ElemTy, input: Seq<Val>, i: int)
    requires
        0 <= i <= input.len(),
        first_mismatch_from(ty, input, i) is None,
    ensures
        forall|k: int| i <= k < input.len() ==> val_has_ty(#[trigger] input[k], ty),
    decreases input.len() - i,
{
    if i < input.len() {
        lemma_input_typed(ty, input, i + 1);
    }
}

proof fn lemma_range_typed(x: int, stop: int, step: int, span: Span)
    ensures
        match range_from(x, stop, step, span) {
            Ok(vs) => typed(vs, ElemTy::I32),
            Err(e) => not_internal(e),
        },
    decreases (if step > 0 { if stop - x > 0 { stop - x } else { 0 } } else { if x - stop > 0 { x - stop } else { 0 } }),
{
    lemma_codes();
    if step != 0 && !((step > 0 && x >= stop) || (step < 0 && x <= stop)) && crate::interp::fits_i32(x)
        && crate::interp::fits_i64(x + step) {
        lemma_range_typed(x + step, stop, step, span);
        if let Ok(rest) = range_from(x + step, stop, step, span) {
            let vs = seq![Val::I32(x as i32)] + rest;
            assert forall|k: int| 0 <= k < vs.len() implies val_has_ty(#[trigger] vs[k], ElemTy::I32) by {
                if k > 0 {
                    assert(vs[k] == rest[k - 1]);
                }
            }
        }
    }
}

/// The stream of a checked source has the source's type.
proof fn lemma_source_typed(src: Source, input: Seq<Val>)
    requires
        source_ty_spec(src) is Ok,
    ensures
        match source_spec(src, input) {
            Ok(vs) => typed(vs, source_ty_spec(src)->Ok_0),
            Err(e) => not_internal(e),
        },
{
    lemma_codes();
    match src {
        Source::Input { ty, .. } => {
            if first_mismatch_from(ty, input, 0) is None {
                lemma_input_typed(ty, input, 0);
            }
        },
        Source::Range { start, stop, step, span } => {
            lemma_range_typed(start as int, stop as int, step as int, span);
        },
        Source::Lit { elems, span } => {
            let es = elems@;
            let t = lit_ty_spec(es, span)->Ok_0;
            let vs = lit_vals(es);
            assert forall|k: int| 0 <= k < vs.len() implies val_has_ty(#[trigger] vs[k], t) by {
                if t == ElemTy::I64 {
                    assert(!is_bool_elem(es[k]));
                } else if t == ElemTy::I32 {
                    assert(!is_bool_elem(es[k]));
                    assert(!(es[k] is I64));
                    assert(!lit_has_i64(es));
                } else {
                    assert(is_bool_elem(es[k]));
                }
            }
        },
    }
}

/// A program that passes the type checker never stops on the interpreter's internal
/// `R_INDEX` diagnostic: each run returns a value or stops with a diagnostic of the input,
/// the range, or the arithmetic (wrong input type, range element out of `i32`, overflow,
/// division by zero, `min`/`max` of nothing).
pub proof fn law_checked_programs_do_not_go_wrong(p: Program, input: Seq<Val>)
    requires
        check_program_spec(p) is Ok,
    ensures
        run_program_spec(p, input) matches Err(x) ==> not_internal(x),
{
    let ty = source_ty_spec(p.source)->Ok_0;
    lemma_source_typed(p.source, input);
    crate::interp::lemma_runtime_prose();
    if let Ok(vs) = source_spec(p.source, input) {
        assert(source_elem_ty(p.source, vs) == ty);
        lemma_stages_typed(Flow::Stream(vs), ty, false, p.stages@, 0);
    }
}

} // verus!
