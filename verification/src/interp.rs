//! Reference interpreter: evaluates a program over an input stream, with checked
//! integer arithmetic and diagnostics that name the failing stage and element.

use vstd::prelude::*;
use crate::ast::{
    stage_span, stage_span_of, CmpOp, CmpRhs, ElemTy, Expr, LitElem, Predicate, Program, ReduceOp,
    ScanOp, Source, Stage,
};
use crate::error::{lir_prose, runtime_err, runtime_error, ErrorView, LirError, Span};
use crate::text::{nat_decimal, push_str, push_usize, string_of};
use crate::types::source_ty_spec;

verus! {

/// A stream element or scalar result.
#[derive(Clone, Copy, Debug, PartialEq, Eq, Structural)]
pub enum Val {
    I32(i32),
    I64(i64),
    Bool(bool),
}

/// Result of running a program: a stream, or a scalar after `reduce`.
#[derive(Debug)]
pub enum RunOutcome {
    Stream(Vec<Val>),
    Scalar(Val),
}

/// Mathematical view of a run result.
pub enum Flow {
    Stream(Seq<Val>),
    Scalar(Val),
}

impl View for RunOutcome {
    type V = Flow;

    open spec fn view(&self) -> Flow {
        match self {
            RunOutcome::Stream(vs) => Flow::Stream(vs@),
            RunOutcome::Scalar(v) => Flow::Scalar(*v),
        }
    }
}

/// Why an element-level operation failed.
pub enum Fault {
    Overflow,
    DivZero,
    Mismatch,
}

/// The diagnostic for a fault at element `ei` of stage `si`.
pub open spec fn fault_view(f: Fault, span: Span, si: usize, ei: usize) -> ErrorView {
    match f {
        Fault::Overflow => runtime_err("R_INTEGER_OVERFLOW"@, span, si, None),
        Fault::DivZero => runtime_err("R_DIV_BY_ZERO"@, span, si, Some(ei)),
        Fault::Mismatch => runtime_err("R_INDEX"@, span, si, Some(ei)),
    }
}

pub open spec fn fits_i32(x: int) -> bool {
    i32::MIN <= x <= i32::MAX
}

pub open spec fn fits_i64(x: int) -> bool {
    i64::MIN <= x <= i64::MAX
}

/// `r` as an `i32` value, or overflow.
pub open spec fn narrow32(r: int) -> Result<Val, Fault> {
    if fits_i32(r) { Ok(Val::I32(r as i32)) } else { Err(Fault::Overflow) }
}

/// `r` as an `i64` value, or overflow.
pub open spec fn narrow64(r: int) -> Result<Val, Fault> {
    if fits_i64(r) { Ok(Val::I64(r as i64)) } else { Err(Fault::Overflow) }
}

/// Exact result of add/sub/mul on mathematical integers.
pub open spec fn apply_int(op: ScanOp, x: int, y: int) -> int {
    match op {
        ScanOp::Add => x + y,
        ScanOp::Sub => x - y,
        ScanOp::Mul => x * y,
    }
}

/// Checked add/sub/mul on values: `i32` with `i32` stays `i32`; any `i64` operand widens to `i64`.
pub open spec fn arith_spec(op: ScanOp, a: Val, b: Val) -> Result<Val, Fault> {
    match (a, b) {
        (Val::I32(x), Val::I32(y)) => narrow32(apply_int(op, x as int, y as int)),
        (Val::I64(x), Val::I64(y)) => narrow64(apply_int(op, x as int, y as int)),
        (Val::I32(x), Val::I64(y)) => narrow64(apply_int(op, x as int, y as int)),
        (Val::I64(x), Val::I32(y)) => narrow64(apply_int(op, x as int, y as int)),
        _ => Err(Fault::Mismatch),
    }
}

/// Division truncating toward zero.
pub open spec fn trunc_div(x: int, d: int) -> int {
    if x == 0 {
        0
    } else if x > 0 && d > 0 {
        x / d
    } else if x < 0 && d < 0 {
        (x * -1) / (d * -1)
    } else if x < 0 {
        ((x * -1) / d) * -1
    } else {
        (x / (d * -1)) * -1
    }
}

/// Remainder of truncating division (sign of the dividend).
pub open spec fn trunc_rem(x: int, d: int) -> int {
    if x == 0 {
        0
    } else if x > 0 && d > 0 {
        x % d
    } else if x < 0 && d < 0 {
        ((x * -1) % (d * -1)) * -1
    } else if x < 0 {
        ((x * -1) % d) * -1
    } else {
        x % (d * -1)
    }
}

/// Truncating quotient and remainder stay within the bounds `[-hi-1, hi]` of the dividend,
/// except for the single overflowing case `(-hi-1) / -1`.
pub proof fn lemma_divmod_bounds(x: int, d: int, hi: int)
    requires
        hi >= 1,
        -hi - 1 <= x <= hi,
        -hi - 1 <= d <= hi,
        d != 0,
        !(x == -hi - 1 && d == -1),
    ensures
        -hi - 1 <= trunc_div(x, d) <= hi,
        -hi - 1 <= trunc_rem(x, d) <= hi,
{
    if x > 0 && d > 0 {
        assert(0 <= x / d <= x) by (nonlinear_arith)
            requires x > 0, d > 0;
        assert(0 <= x % d < d) by (nonlinear_arith)
            requires x > 0, d > 0;
    } else if x < 0 && d < 0 {
        assert(0 <= (x * -1) / (d * -1) <= (x * -1)) by (nonlinear_arith)
            requires x < 0, d < 0;
        assert(0 <= (x * -1) / (d * -1) <= hi) by (nonlinear_arith)
            requires x < 0, d < 0, -hi - 1 <= x, !(x == -hi - 1 && d == -1), (x * -1) / (d * -1) <= (x * -1);
        assert(0 <= (x * -1) % (d * -1) < (d * -1)) by (nonlinear_arith)
            requires x < 0, d < 0;
    } else if x < 0 {
        assert(0 <= (x * -1) / d <= (x * -1)) by (nonlinear_arith)
            requires x < 0, d > 0;
        assert(0 <= (x * -1) % d < d) by (nonlinear_arith)
            requires x < 0, d > 0;
    } else if x > 0 {
        assert(0 <= x / (d * -1) <= x) by (nonlinear_arith)
            requires x > 0, d < 0;
        assert(0 <= x % (d * -1) < (d * -1)) by (nonlinear_arith)
            requires x > 0, d < 0;
    }
}

/// Quotient or remainder (`is_div`) of `x` by `y` in a width whose minimum is `min`.
pub open spec fn divmod_int(is_div: bool, x: int, y: int, min: int) -> Result<int, Fault> {
    if y == 0 {
        Err(Fault::DivZero)
    } else if x == min && y == -1 {
        Err(Fault::Overflow)
    } else if is_div {
        Ok(trunc_div(x, y))
    } else {
        Ok(trunc_rem(x, y))
    }
}

/// Checked division or remainder on values, widening like [`arith_spec`].
pub open spec fn divmod_spec(is_div: bool, a: Val, b: Val) -> Result<Val, Fault> {
    match (a, b) {
        (Val::I32(x), Val::I32(y)) => match divmod_int(is_div, x as int, y as int, i32::MIN as int) {
            Ok(r) => Ok(Val::I32(r as i32)),
            Err(f) => Err(f),
        },
        (Val::I64(x), Val::I64(y)) => match divmod_int(is_div, x as int, y as int, i64::MIN as int) {
            Ok(r) => Ok(Val::I64(r as i64)),
            Err(f) => Err(f),
        },
        (Val::I32(x), Val::I64(y)) => match divmod_int(is_div, x as int, y as int, i64::MIN as int) {
            Ok(r) => Ok(Val::I64(r as i64)),
            Err(f) => Err(f),
        },
        (Val::I64(x), Val::I32(y)) => match divmod_int(is_div, x as int, y as int, i64::MIN as int) {
            Ok(r) => Ok(Val::I64(r as i64)),
            Err(f) => Err(f),
        },
        _ => Err(Fault::Mismatch),
    }
}

/// Checked negation.
pub open spec fn neg_spec(a: Val) -> Result<Val, Fault> {
    match a {
        Val::I32(x) => narrow32(-(x as int)),
        Val::I64(x) => narrow64(-(x as int)),
        Val::Bool(_) => Err(Fault::Mismatch),
    }
}

/// Value of an integer literal of a `map` expression at element `x`: `i64` on an `i64`
/// stream (the literal takes the width of the stream), else `i32` when it fits, else `i64`.
pub open spec fn lit_val(v: i64, x: Val) -> Val {
    if x is I64 || !fits_i32(v as int) { Val::I64(v) } else { Val::I32(v as i32) }
}

/// Value of a `map` expression at element `x`; operands are evaluated left to right.
pub open spec fn eval_expr_spec(e: Expr, x: Val) -> Result<Val, Fault>
    decreases e,
{
    match e {
        Expr::Add { left, right, .. } => bin_spec(ScanOp::Add, eval_expr_spec(*left, x), eval_expr_spec(*right, x)),
        Expr::Sub { left, right, .. } => bin_spec(ScanOp::Sub, eval_expr_spec(*left, x), eval_expr_spec(*right, x)),
        Expr::Mul { left, right, .. } => bin_spec(ScanOp::Mul, eval_expr_spec(*left, x), eval_expr_spec(*right, x)),
        Expr::Div { left, right, .. } => divmod_lift(true, eval_expr_spec(*left, x), eval_expr_spec(*right, x)),
        Expr::Mod { left, right, .. } => divmod_lift(false, eval_expr_spec(*left, x), eval_expr_spec(*right, x)),
        Expr::Neg { inner, .. } => match eval_expr_spec(*inner, x) {
            Ok(v) => neg_spec(v),
            Err(f) => Err(f),
        },
        Expr::Dot { .. } => Ok(x),
        Expr::Lit { v, .. } => Ok(lit_val(v, x)),
    }
}

/// Combine two evaluated operands with add/sub/mul; the left failure comes first.
pub open spec fn bin_spec(op: ScanOp, a: Result<Val, Fault>, b: Result<Val, Fault>) -> Result<Val, Fault> {
    match a {
        Err(f) => Err(f),
        Ok(x) => match b {
            Err(f) => Err(f),
            Ok(y) => arith_spec(op, x, y),
        },
    }
}

/// Combine two evaluated operands with div/mod; the left failure comes first.
pub open spec fn divmod_lift(is_div: bool, a: Result<Val, Fault>, b: Result<Val, Fault>) -> Result<Val, Fault> {
    match a {
        Err(f) => Err(f),
        Ok(x) => match b {
            Err(f) => Err(f),
            Ok(y) => divmod_spec(is_div, x, y),
        },
    }
}

/// Integer payload of a value whose type matches the stream type.
pub open spec fn as_int_spec(v: Val, ty: ElemTy) -> Result<int, Fault> {
    match (ty, v) {
        (ElemTy::I32, Val::I32(x)) => Ok(x as int),
        (ElemTy::I64, Val::I64(x)) => Ok(x as int),
        _ => Err(Fault::Mismatch),
    }
}

/// Integer comparison.
pub open spec fn compare_int(l: int, r: int, op: CmpOp) -> bool {
    match op {
        CmpOp::Eq => l == r,
        CmpOp::Lt => l < r,
        CmpOp::Le => l <= r,
        CmpOp::Gt => l > r,
        CmpOp::Ge => l >= r,
    }
}

/// Result of a comparison atom on element `v` of a stream of type `ty`.
pub open spec fn compare_val_spec(op: CmpOp, v: Val, ty: ElemTy, rhs: CmpRhs) -> Result<bool, Fault> {
    match (ty, v, rhs) {
        (ElemTy::Bool, Val::Bool(b), CmpRhs::Bool(r)) => if op == CmpOp::Eq {
            Ok(b == r)
        } else {
            Err(Fault::Mismatch)
        },
        (_, _, CmpRhs::Bool(_)) => Err(Fault::Mismatch),
        (ElemTy::I32, Val::I32(l), CmpRhs::Int(r)) => if fits_i32(r as int) {
            Ok(compare_int(l as int, r as int, op))
        } else {
            Err(Fault::Mismatch)
        },
        (ElemTy::I64, Val::I64(l), CmpRhs::Int(r)) => Ok(compare_int(l as int, r as int, op)),
        _ => Err(Fault::Mismatch),
    }
}

/// Truth of a predicate on element `v`; `or` and `&` short-circuit left to right.
pub open spec fn eval_pred_spec(p: Predicate, v: Val, ty: ElemTy) -> Result<bool, Fault>
    decreases p,
{
    match p {
        Predicate::Or { left, right, .. } => match eval_pred_spec(*left, v, ty) {
            Err(f) => Err(f),
            Ok(true) => Ok(true),
            Ok(false) => eval_pred_spec(*right, v, ty),
        },
        Predicate::And { left, right, .. } => match eval_pred_spec(*left, v, ty) {
            Err(f) => Err(f),
            Ok(false) => Ok(false),
            Ok(true) => eval_pred_spec(*right, v, ty),
        },
        Predicate::Not { inner, .. } => match eval_pred_spec(*inner, v, ty) {
            Err(f) => Err(f),
            Ok(b) => Ok(!b),
        },
        Predicate::Even { .. } => match as_int_spec(v, ty) {
            Err(f) => Err(f),
            Ok(n) => Ok(n % 2 == 0),
        },
        Predicate::Odd { .. } => match as_int_spec(v, ty) {
            Err(f) => Err(f),
            Ok(n) => Ok(n % 2 != 0),
        },
        Predicate::Cmp { op, rhs, .. } => compare_val_spec(op, v, ty, rhs),
    }
}

/// Prefix `pre` to a successful sequence result.
pub open spec fn prepend(pre: Seq<Val>, r: Result<Seq<Val>, ErrorView>) -> Result<Seq<Val>, ErrorView> {
    match r {
        Ok(s) => Ok(pre + s),
        Err(e) => Err(e),
    }
}

/// Elements `vs[i..]` kept by `filter`.
pub open spec fn filter_from(p: Predicate, vs: Seq<Val>, ty: ElemTy, span: Span, si: usize, i: int) -> Result<Seq<Val>, ErrorView>
    decreases vs.len() - i,
{
    if i < 0 || i >= vs.len() {
        Ok(Seq::empty())
    } else {
        match eval_pred_spec(p, vs[i], ty) {
            Err(f) => Err(fault_view(f, span, si, i as usize)),
            Ok(b) => prepend(if b { seq![vs[i]] } else { Seq::empty() }, filter_from(p, vs, ty, span, si, i + 1)),
        }
    }
}

/// Images of `vs[i..]` under a `map` expression.
pub open spec fn map_from(e: Expr, vs: Seq<Val>, span: Span, si: usize, i: int) -> Result<Seq<Val>, ErrorView>
    decreases vs.len() - i,
{
    if i < 0 || i >= vs.len() {
        Ok(Seq::empty())
    } else {
        match eval_expr_spec(e, vs[i]) {
            Err(f) => Err(fault_view(f, span, si, i as usize)),
            Ok(y) => prepend(seq![y], map_from(e, vs, span, si, i + 1)),
        }
    }
}

/// Running accumulations of `vs[i..]` starting from `acc` (the initial value excluded).
pub open spec fn scan_from(op: ScanOp, acc: Val, vs: Seq<Val>, span: Span, si: usize, i: int) -> Result<Seq<Val>, ErrorView>
    decreases vs.len() - i,
{
    if i < 0 || i >= vs.len() {
        Ok(Seq::empty())
    } else {
        match arith_spec(op, acc, vs[i]) {
            Err(f) => Err(fault_view(f, span, si, i as usize)),
            Ok(a2) => prepend(seq![a2], scan_from(op, a2, vs, span, si, i + 1)),
        }
    }
}

/// Fold of `vs[i..]` into `acc` with add or mul.
pub open spec fn fold_from(op: ScanOp, acc: Val, vs: Seq<Val>, span: Span, si: usize, i: int) -> Result<Val, ErrorView>
    decreases vs.len() - i,
{
    if i < 0 || i >= vs.len() {
        Ok(acc)
    } else {
        match arith_spec(op, acc, vs[i]) {
            Err(f) => Err(fault_view(f, span, si, i as usize)),
            Ok(a2) => fold_from(op, a2, vs, span, si, i + 1),
        }
    }
}

/// Smaller (`is_min`) or larger of two integer values, widening to `i64` on mixed widths.
pub open spec fn minmax_spec(is_min: bool, a: Val, b: Val) -> Option<Val> {
    match (a, b) {
        (Val::I32(x), Val::I32(y)) => Some(Val::I32(if (is_min && x <= y) || (!is_min && x >= y) { x } else { y })),
        (Val::I64(x), Val::I64(y)) => Some(Val::I64(if (is_min && x <= y) || (!is_min && x >= y) { x } else { y })),
        (Val::I32(x), Val::I64(y)) => Some(Val::I64(if (is_min && x <= y) || (!is_min && x >= y) { x as i64 } else { y })),
        (Val::I64(x), Val::I32(y)) => Some(Val::I64(if (is_min && x <= y) || (!is_min && x >= y) { x } else { y as i64 })),
        _ => None,
    }
}

/// The diagnostic of a `min`/`max` on values of different kinds.
pub open spec fn minmax_mismatch() -> ErrorView {
    runtime_err("R_INDEX"@, Span { start: 0, end: 0 }, 0, None)
}

/// Fold of `vs[i..]` into `acc` with min or max.
pub open spec fn minmax_from(is_min: bool, acc: Val, vs: Seq<Val>, i: int) -> Result<Val, ErrorView>
    decreases vs.len() - i,
{
    if i < 0 || i >= vs.len() {
        Ok(acc)
    } else {
        match minmax_spec(is_min, acc, vs[i]) {
            None => Err(minmax_mismatch()),
            Some(a2) => minmax_from(is_min, a2, vs, i + 1),
        }
    }
}

/// Element type of a stream: that of its first element; `i32` when empty.
pub open spec fn stream_ty(vs: Seq<Val>) -> ElemTy {
    if vs.len() == 0 {
        ElemTy::I32
    } else {
        match vs[0] {
            Val::I32(_) => ElemTy::I32,
            Val::I64(_) => ElemTy::I64,
            Val::Bool(_) => ElemTy::Bool,
        }
    }
}

/// Result of a `reduce` stage.
pub open spec fn reduce_spec(op: ReduceOp, vs: Seq<Val>, ty: ElemTy, span: Span, si: usize) -> Result<Val, ErrorView> {
    match op {
        ReduceOp::Count => Ok(Val::I32(vs.len() as i32)),
        ReduceOp::Sum => if vs.len() == 0 {
            match ty {
                ElemTy::I32 => Ok(Val::I32(0)),
                ElemTy::I64 => Ok(Val::I64(0)),
                ElemTy::Bool => Err(runtime_err("R_INDEX"@, span, si, None)),
            }
        } else {
            fold_from(ScanOp::Add, vs[0], vs, span, si, 1)
        },
        ReduceOp::Prod => if vs.len() == 0 {
            match ty {
                ElemTy::I32 => Ok(Val::I32(1)),
                ElemTy::I64 => Ok(Val::I64(1)),
                ElemTy::Bool => Err(runtime_err("R_INDEX"@, span, si, None)),
            }
        } else {
            fold_from(ScanOp::Mul, vs[0], vs, span, si, 1)
        },
        ReduceOp::Min | ReduceOp::Max => if vs.len() == 0 {
            Err(runtime_err("R_REDUCE_EMPTY_MINMAX"@, span, si, None))
        } else {
            minmax_from(op == ReduceOp::Min, vs[0], vs, 1)
        },
    }
}

/// Initial accumulator of a `scan` stage.
pub open spec fn scan_init_spec(init: i64, ty: ElemTy, span: Span, si: usize) -> Result<Val, ErrorView> {
    match ty {
        ElemTy::I32 => if fits_i32(init as int) {
            Ok(Val::I32(init as i32))
        } else {
            Err(runtime_err("R_SCAN_INIT_RANGE"@, span, si, None))
        },
        ElemTy::I64 => Ok(Val::I64(init)),
        ElemTy::Bool => Err(runtime_err("R_INDEX"@, span, si, None)),
    }
}

/// Result of running stage `st` (at index `si`) on `flow`, whose elements have type `ty`.
pub open spec fn run_stage_spec(flow: Flow, ty: ElemTy, st: Stage, si: usize) -> Result<Flow, ErrorView> {
    let span = stage_span_of(st);
    match flow {
        Flow::Scalar(_) => Err(runtime_err("R_INDEX"@, span, si, None)),
        Flow::Stream(vs) => match st {
            Stage::Filter { pred, .. } => match filter_from(pred, vs, ty, span, si, 0) {
                Ok(out) => Ok(Flow::Stream(out)),
                Err(e) => Err(e),
            },
            Stage::MapEach { expr, .. } => match map_from(expr, vs, span, si, 0) {
                Ok(out) => Ok(Flow::Stream(out)),
                Err(e) => Err(e),
            },
            Stage::Scan { init, op, .. } => match scan_init_spec(init, ty, span, si) {
                Err(e) => Err(e),
                Ok(acc) => match scan_from(op, acc, vs, span, si, 0) {
                    Ok(out) => Ok(Flow::Stream(seq![acc] + out)),
                    Err(e) => Err(e),
                },
            },
            Stage::Reduce { op, .. } => match reduce_spec(op, vs, ty, span, si) {
                Ok(v) => Ok(Flow::Scalar(v)),
                Err(e) => Err(e),
            },
            Stage::Take { n, .. } => Ok(Flow::Stream(if (n as int) < vs.len() { vs.take(n as int) } else { vs })),
            Stage::Drop { n, .. } => Ok(Flow::Stream(if (n as int) > vs.len() { Seq::empty() } else { vs.skip(n as int) })),
            Stage::Id { .. } => Ok(Flow::Stream(vs)),
        },
    }
}

/// Result of running `stages[i..]` (stage indices counted from 0) on `flow`, whose elements
/// have type `ty` (every stage keeps the element type of a checked program).
pub open spec fn run_stages_from(flow: Flow, ty: ElemTy, stages: Seq<Stage>, i: int) -> Result<Flow, ErrorView>
    decreases stages.len() - i,
{
    if i < 0 || i >= stages.len() {
        Ok(flow)
    } else {
        match run_stage_spec(flow, ty, stages[i], i as usize) {
            Ok(f2) => run_stages_from(f2, ty, stages, i + 1),
            Err(e) => Err(e),
        }
    }
}

/// Whether a value has the declared element type.
pub open spec fn val_has_ty(v: Val, ty: ElemTy) -> bool {
    match (ty, v) {
        (ElemTy::I32, Val::I32(_)) => true,
        (ElemTy::I64, Val::I64(_)) => true,
        (ElemTy::Bool, Val::Bool(_)) => true,
        _ => false,
    }
}

/// Index of the first input value whose type differs from the declared one, scanning from `i`.
pub open spec fn first_mismatch_from(ty: ElemTy, input: Seq<Val>, i: int) -> Option<int>
    decreases input.len() - i,
{
    if i < 0 || i >= input.len() {
        None
    } else if !val_has_ty(input[i], ty) {
        Some(i)
    } else {
        first_mismatch_from(ty, input, i + 1)
    }
}

/// Values of `range(start, stop, step)` from the current value `x` on.
pub open spec fn range_from(x: int, stop: int, step: int, span: Span) -> Result<Seq<Val>, ErrorView>
    decreases (if step > 0 { if stop - x > 0 { stop - x } else { 0 } } else { if x - stop > 0 { x - stop } else { 0 } }),
{
    if step == 0 {
        Err(runtime_err("R_RANGE_STEP"@, span, 0, None))
    } else if (step > 0 && x >= stop) || (step < 0 && x <= stop) {
        Ok(Seq::empty())
    } else if !fits_i32(x) {
        Err(runtime_err("R_RANGE_ELEM_RANGE"@, span, 0, None))
    } else if !fits_i64(x + step) {
        Err(runtime_err("R_INTEGER_OVERFLOW"@, span, 0, None))
    } else {
        prepend(seq![Val::I32(x as i32)], range_from(x + step, stop, step, span))
    }
}

/// Whether some element of a `lit` is an `i64` literal; the whole `lit` then has type `i64`.
pub open spec fn lit_has_i64(es: Seq<LitElem>) -> bool {
    exists|i: int| 0 <= i < es.len() && #[trigger] es[i] is I64
}

/// Value of a `lit` element in a `lit` of integers that is `wide` (of type `i64`) or not.
pub open spec fn lit_elem_val(e: LitElem, wide: bool) -> Val {
    match e {
        LitElem::I32(v) => if wide { Val::I64(v as i64) } else { Val::I32(v) },
        LitElem::I64(v) => Val::I64(v),
        LitElem::Bool(b) => Val::Bool(b),
    }
}

/// The values of a `lit`: each element with the type of the whole `lit`.
pub open spec fn lit_vals(es: Seq<LitElem>) -> Seq<Val> {
    es.map_values(|e: LitElem| lit_elem_val(e, lit_has_i64(es)))
}

/// The stream a source produces for the given input.
pub open spec fn source_spec(src: Source, input: Seq<Val>) -> Result<Seq<Val>, ErrorView> {
    match src {
        Source::Input { ty, span, .. } => match first_mismatch_from(ty, input, 0) {
            Some(i) => Err(runtime_err("R_INPUT_TY"@, span, 0, Some(i as usize))),
            None => Ok(input),
        },
        Source::Range { start, stop, step, span } => range_from(start as int, stop as int, step as int, span),
        Source::Lit { elems, .. } => Ok(lit_vals(elems@)),
    }
}

/// The element type of the stream a source gives: the type the checker gives the source, or,
/// for a source the checker rejects, that of the first value.
pub open spec fn source_elem_ty(src: Source, vs: Seq<Val>) -> ElemTy {
    match source_ty_spec(src) {
        Ok(t) => t,
        Err(_) => stream_ty(vs),
    }
}

/// Result of running a whole program on an input stream.
pub open spec fn run_program_spec(p: Program, input: Seq<Val>) -> Result<Flow, ErrorView> {
    match source_spec(p.source, input) {
        Err(e) => Err(e),
        Ok(vs) => run_stages_from(Flow::Stream(vs), source_elem_ty(p.source, vs), p.stages@, 0),
    }
}

/// The message of an input value of the wrong type, at index `i`.
pub open spec fn input_ty_message(i: Option<usize>) -> Seq<char> {
    "input value at index "@ + nat_decimal(i.unwrap_or(0) as nat) + " does not match declared input type"@
}

/// The message and hint that go with each runtime diagnostic code other than `R_INDEX`
/// (for `R_INPUT_TY` the message also names the index, see [`input_ty_message`]).
pub open spec fn runtime_prose(code: Seq<char>) -> (Seq<char>, Seq<char>) {
    if code == "R_INPUT_TY"@ {
        ("input value does not match declared input type"@, "Pass a JSON array matching input:i32, input:i64, or input:bool."@)
    } else if code == "R_RANGE_STEP"@ {
        ("internal: zero step"@, "Report a compiler bug."@)
    } else if code == "R_RANGE_ELEM_RANGE"@ {
        ("range element does not fit i32"@, "Use smaller bounds or extend language to i64 range (future)."@)
    } else if code == "R_SCAN_INIT_RANGE"@ {
        ("scan init does not fit i32"@, "Fix initializer or use i64 streams."@)
    } else if code == "R_REDUCE_EMPTY_MINMAX"@ {
        ("min/max on empty stream"@, "Guard with take/drop or handle empty input in host."@)
    } else if code == "R_INTEGER_OVERFLOW"@ {
        ("integer overflow"@, "Use a smaller intermediate range or i64 streams."@)
    } else if code == "R_DIV_BY_ZERO"@ {
        ("division or remainder by zero"@, "Avoid zero divisors in map/mod/div."@)
    } else {
        (Seq::empty(), Seq::empty())
    }
}

/// A runtime diagnostic carries the prose of its code (with the index of the value for
/// `R_INPUT_TY`); an internal `R_INDEX` one, whose
/// message names the internal step, asks for a bug report.
pub open spec fn runtime_prose_ok(e: LirError) -> bool {
    if e@.code == "R_INDEX"@ {
        lir_prose(e).1 == "Report a compiler bug."@
    } else if e@.code == "R_INPUT_TY"@ {
        lir_prose(e) == (input_ty_message(e@.element_index), runtime_prose(e@.code).1)
    } else {
        lir_prose(e) == runtime_prose(e@.code)
    }
}

pub proof fn lemma_runtime_prose()
    ensures
        runtime_prose("R_INPUT_TY"@) == ("input value does not match declared input type"@, "Pass a JSON array matching input:i32, input:i64, or input:bool."@),
        runtime_prose("R_RANGE_STEP"@) == ("internal: zero step"@, "Report a compiler bug."@),
        runtime_prose("R_RANGE_ELEM_RANGE"@) == ("range element does not fit i32"@, "Use smaller bounds or extend language to i64 range (future)."@),
        runtime_prose("R_SCAN_INIT_RANGE"@) == ("scan init does not fit i32"@, "Fix initializer or use i64 streams."@),
        runtime_prose("R_REDUCE_EMPTY_MINMAX"@) == ("min/max on empty stream"@, "Guard with take/drop or handle empty input in host."@),
        runtime_prose("R_INTEGER_OVERFLOW"@) == ("integer overflow"@, "Use a smaller intermediate range or i64 streams."@),
        runtime_prose("R_DIV_BY_ZERO"@) == ("division or remainder by zero"@, "Avoid zero divisors in map/mod/div."@),
        "R_INDEX"@ != "R_INPUT_TY"@ && "R_INDEX"@ != "R_RANGE_STEP"@ && "R_INDEX"@ != "R_RANGE_ELEM_RANGE"@ && "R_INDEX"@ != "R_SCAN_INIT_RANGE"@,
        "R_INDEX"@ != "R_REDUCE_EMPTY_MINMAX"@ && "R_INDEX"@ != "R_INTEGER_OVERFLOW"@ && "R_INDEX"@ != "R_DIV_BY_ZERO"@,
        "R_INPUT_TY"@ != "R_RANGE_STEP"@ && "R_INPUT_TY"@ != "R_RANGE_ELEM_RANGE"@ && "R_INPUT_TY"@ != "R_SCAN_INIT_RANGE"@,
        "R_INPUT_TY"@ != "R_REDUCE_EMPTY_MINMAX"@ && "R_INPUT_TY"@ != "R_INTEGER_OVERFLOW"@ && "R_INPUT_TY"@ != "R_DIV_BY_ZERO"@,
{
    reveal_strlit("R_INPUT_TY");
    reveal_strlit("R_RANGE_STEP");
    reveal_strlit("R_RANGE_ELEM_RANGE");
    reveal_strlit("R_SCAN_INIT_RANGE");
    reveal_strlit("R_REDUCE_EMPTY_MINMAX");
    reveal_strlit("R_INTEGER_OVERFLOW");
    reveal_strlit("R_DIV_BY_ZERO");
    reveal_strlit("R_INDEX");
    assert("R_INPUT_TY"@.len() == 10 && "R_INPUT_TY"@[2] == 'I');
    assert("R_RANGE_STEP"@.len() == 12 && "R_RANGE_STEP"@[2] == 'R');
    assert("R_RANGE_ELEM_RANGE"@.len() == 18 && "R_RANGE_ELEM_RANGE"@[2] == 'R');
    assert("R_SCAN_INIT_RANGE"@.len() == 17 && "R_SCAN_INIT_RANGE"@[2] == 'S');
    assert("R_REDUCE_EMPTY_MINMAX"@.len() == 21 && "R_REDUCE_EMPTY_MINMAX"@[2] == 'R');
    assert("R_INTEGER_OVERFLOW"@.len() == 18 && "R_INTEGER_OVERFLOW"@[2] == 'I');
    assert("R_DIV_BY_ZERO"@.len() == 13 && "R_DIV_BY_ZERO"@[2] == 'D');
    assert("R_INDEX"@.len() == 7 && "R_INDEX"@[2] == 'I');
}

/// Runs `p` on `input` with the reference semantics.
pub fn run_program(p: &Program, input: &[Val]) -> (r: Result<RunOutcome, LirError>)
    ensures
        match (r, run_program_spec(*p, input@)) {
            (Ok(o), Ok(f)) => o@ == f,
            (Err(e), Err(v)) => e@ == v,
            _ => false,
        },
        r matches Err(x) ==> runtime_prose_ok(x),
{
    proof {
        lemma_runtime_prose();
    }
    let vs = match source_values(&p.source, input) {
        Ok(vs) => vs,
        Err(e) => return Err(e),
    };
    let ty = match crate::types::source_stream_ty(&p.source) {
        Ok(t) => t,
        Err(_) => elem_ty_of_stream(&vs),
    };
    let mut flow = RunOutcome::Stream(vs);
    let mut idx: usize = 0;
    while idx < p.stages.len()
        invariant
            idx <= p.stages@.len(),
            run_program_spec(*p, input@) == run_stages_from(flow@, ty, p.stages@, idx as int),
        decreases p.stages@.len() - idx,
    {
        match run_stage(flow, ty, &p.stages[idx], idx) {
            Ok(f2) => flow = f2,
            Err(e) => return Err(e),
        }
        idx = idx + 1;
    }
    Ok(flow)
}

fn source_values(src: &Source, input: &[Val]) -> (r: Result<Vec<Val>, LirError>)
    ensures
        match (r, source_spec(*src, input@)) {
            (Ok(v), Ok(s)) => v@ == s,
            (Err(e), Err(v)) => e@ == v,
            _ => false,
        },
        r matches Err(x) ==> runtime_prose_ok(x),
{
    proof {
        lemma_runtime_prose();
    }
    match src {
        Source::Input { ty, span, .. } => {
            validate_input(*ty, input, *span)?;
            Ok(vstd::slice::slice_to_vec(input))
        },
        Source::Range { start, stop, step, span } => range_values(*start, *stop, *step, *span),
        Source::Lit { elems, span } => lit_values(elems, *span),
    }
}

fn validate_input(ty: ElemTy, input: &[Val], span: Span) -> (r: Result<(), LirError>)
    ensures
        match first_mismatch_from(ty, input@, 0) {
            Some(i) => r matches Err(e) && e@ == runtime_err("R_INPUT_TY"@, span, 0, Some(i as usize)),
            None => r is Ok,
        },
        r matches Err(x) ==> runtime_prose_ok(x),
{
    proof {
        lemma_runtime_prose();
    }
    let mut i: usize = 0;
    while i < input.len()
        invariant
            i <= input@.len(),
            first_mismatch_from(ty, input@, 0) == first_mismatch_from(ty, input@, i as int),
        decreases input@.len() - i,
    {
        let ok = match (ty, &input[i]) {
            (ElemTy::I32, Val::I32(_)) => true,
            (ElemTy::I64, Val::I64(_)) => true,
            (ElemTy::Bool, Val::Bool(_)) => true,
            _ => false,
        };
        if !ok {
            proof {
                lemma_runtime_prose();
            }
            let mut message = string_of("input value at index ");
            push_usize(&mut message, i);
            push_str(&mut message, " does not match declared input type");
            return Err(LirError::Runtime {
                code: "R_INPUT_TY",
                span,
                message,
                fix_hint: string_of("Pass a JSON array matching input:i32, input:i64, or input:bool."),
                stage_index: 0,
                element_index: Some(i),
            });
        }
        i = i + 1;
    }
    Ok(())
}

fn range_values(start: i64, stop: i64, step: i64, span: Span) -> (r: Result<Vec<Val>, LirError>)
    ensures
        match (r, range_from(start as int, stop as int, step as int, span)) {
            (Ok(v), Ok(s)) => v@ == s,
            (Err(e), Err(v)) => e@ == v,
            _ => false,
        },
        r matches Err(x) ==> runtime_prose_ok(x),
{
    proof {
        lemma_runtime_prose();
    }
    let mut out: Vec<Val> = Vec::new();
    let mut x = start;
    loop
        invariant
            range_from(start as int, stop as int, step as int, span) == prepend(out@, range_from(x as int, stop as int, step as int, span)),
        ensures
            (step > 0 && x >= stop) || (step < 0 && x <= stop),
            range_from(start as int, stop as int, step as int, span) == prepend(out@, range_from(x as int, stop as int, step as int, span)),
        decreases (if step > 0 { i64::MAX - x } else { x - i64::MIN }),
    {
        if step > 0 {
            if x >= stop {
                break;
            }
        } else if step < 0 {
            if x <= stop {
                break;
            }
        } else {
            proof {
                lemma_runtime_prose();
            }
            return Err(runtime_error("R_RANGE_STEP", span, "internal: zero step", "Report a compiler bug.", 0, None));
        }
        if x < i32::MIN as i64 || x > i32::MAX as i64 {
            proof {
                lemma_runtime_prose();
            }
            return Err(runtime_error(
                "R_RANGE_ELEM_RANGE",
                span,
                "range element does not fit i32",
                "Use smaller bounds or extend language to i64 range (future).",
                0,
                None,
            ));
        }
        let ghost old_out = out@;
        out.push(Val::I32(x as i32));
        match x.checked_add(step) {
            Some(nx) => {
                assert(old_out + (seq![Val::I32(x as i32)] + Seq::empty()) == out@ + Seq::empty());
                proof {
                    let rest = range_from(nx as int, stop as int, step as int, span);
                    match rest {
                        Ok(s) => {
                            assert(old_out + (seq![Val::I32(x as i32)] + s) == out@ + s);
                        },
                        Err(_) => {},
                    }
                }
                x = nx;
            },
            None => {
                return Err(runtime_overflow(span, 0));
            },
        }
    }
    assert(out@ + Seq::<Val>::empty() == out@);
    Ok(out)
}

fn lit_values(elems: &Vec<LitElem>, _span: Span) -> (r: Result<Vec<Val>, LirError>)
    ensures
        r matches Ok(v) && v@ == lit_vals(elems@),
        r matches Err(x) ==> runtime_prose_ok(x),
{
    proof {
        lemma_runtime_prose();
    }
    let mut wide = false;
    let mut j: usize = 0;
    while j < elems.len()
        invariant
            j <= elems@.len(),
            wide == exists|k: int| 0 <= k < j && #[trigger] elems@[k] is I64,
        decreases elems@.len() - j,
    {
        if let LitElem::I64(_) = elems[j] {
            wide = true;
        }
        j = j + 1;
    }
    assert(wide == lit_has_i64(elems@));
    let mut out: Vec<Val> = Vec::new();
    let mut i: usize = 0;
    while i < elems.len()
        invariant
            i <= elems@.len(),
            wide == lit_has_i64(elems@),
            out@ == elems@.take(i as int).map_values(|e: LitElem| lit_elem_val(e, wide)),
        decreases elems@.len() - i,
    {
        let v = match elems[i] {
            LitElem::I32(v) => if wide { Val::I64(v as i64) } else { Val::I32(v) },
            LitElem::I64(v) => Val::I64(v),
            LitElem::Bool(b) => Val::Bool(b),
        };
        out.push(v);
        i = i + 1;
        assert(elems@.take(i as int).map_values(|e: LitElem| lit_elem_val(e, wide))
            == elems@.take(i - 1).map_values(|e: LitElem| lit_elem_val(e, wide)).push(v));
    }
    assert(elems@.take(elems@.len() as int) == elems@);
    Ok(out)
}


/// Relates an element-level result to its specification: equal values, or the fault's diagnostic.
pub open spec fn matches_fault<T>(r: Result<T, LirError>, s: Result<T, Fault>, span: Span, si: usize, ei: usize) -> bool {
    match (r, s) {
        (Ok(a), Ok(b)) => a == b,
        (Err(e), Err(f)) => e@ == fault_view(f, span, si, ei),
        _ => false,
    }
}

/// Relates a result to a specification result with diagnostics.
pub open spec fn matches_view<T>(r: Result<T, LirError>, s: Result<T, ErrorView>) -> bool {
    match (r, s) {
        (Ok(a), Ok(b)) => a == b,
        (Err(e), Err(v)) => e@ == v,
        _ => false,
    }
}

#[verifier::loop_isolation(false)]
fn run_stage(flow: RunOutcome, ty: ElemTy, st: &Stage, stage_index: usize) -> (r: Result<RunOutcome, LirError>)
    ensures
        match (r, run_stage_spec(flow@, ty, *st, stage_index)) {
            (Ok(o), Ok(f)) => o@ == f,
            (Err(e), Err(v)) => e@ == v,
            _ => false,
        },
        r matches Err(x) ==> runtime_prose_ok(x),
{
    proof {
        lemma_runtime_prose();
    }
    let span = stage_span(st);
    match flow {
        RunOutcome::Scalar(_) => Err(runtime_error(
            "R_INDEX",
            span,
            "internal: scalar passed to stage",
            "Report a compiler bug.",
            stage_index,
            None,
        )),
        RunOutcome::Stream(vs) => match st {
            Stage::Filter { pred, .. } => {
                let mut out: Vec<Val> = Vec::new();
                let mut i: usize = 0;
                while i < vs.len()
                    invariant
                        i <= vs@.len(),
                        span == stage_span_of(*st),
                        filter_from(*pred, vs@, ty, span, stage_index, 0)
                            == prepend(out@, filter_from(*pred, vs@, ty, span, stage_index, i as int)),
                    decreases vs@.len() - i,
                {
                    let v = vs[i];
                    let keep = eval_pred(pred, &v, ty, span, stage_index, i)?;
                    let ghost old_out = out@;
                    if keep {
                        out.push(v);
                    }
                    proof {
                        let pre = if keep { seq![v] } else { Seq::<Val>::empty() };
                        assert(out@ == old_out + pre);
                        match filter_from(*pred, vs@, ty, span, stage_index, i + 1) {
                            Ok(s) => assert(old_out + (pre + s) == out@ + s),
                            Err(_) => {},
                        }
                    }
                    i = i + 1;
                }
                assert(out@ + Seq::<Val>::empty() == out@);
                Ok(RunOutcome::Stream(out))
            },
            Stage::MapEach { expr, .. } => {
                let mut out: Vec<Val> = Vec::new();
                let mut i: usize = 0;
                while i < vs.len()
                    invariant
                        i <= vs@.len(),
                        span == stage_span_of(*st),
                        map_from(*expr, vs@, span, stage_index, 0)
                            == prepend(out@, map_from(*expr, vs@, span, stage_index, i as int)),
                    decreases vs@.len() - i,
                {
                    let y = eval_expr(expr, &vs[i], span, stage_index, i)?;
                    let ghost old_out = out@;
                    out.push(y);
                    proof {
                        match map_from(*expr, vs@, span, stage_index, i + 1) {
                            Ok(s) => assert(old_out + (seq![y] + s) == out@ + s),
                            Err(_) => {},
                        }
                    }
                    i = i + 1;
                }
                assert(out@ + Seq::<Val>::empty() == out@);
                Ok(RunOutcome::Stream(out))
            },
            Stage::Scan { init, op, .. } => {
                let mut acc = scan_init_val(*init, ty, span, stage_index)?;
                let mut out: Vec<Val> = Vec::new();
                out.push(acc);
                let ghost acc0 = acc;
                let mut i: usize = 0;
                while i < vs.len()
                    invariant
                        i <= vs@.len(),
                        span == stage_span_of(*st),
                        out@.len() >= 1,
                        out@[0] == acc0,
                        prepend(seq![acc0], scan_from(*op, acc0, vs@, span, stage_index, 0))
                            == prepend(out@, scan_from(*op, acc, vs@, span, stage_index, i as int)),
                    decreases vs@.len() - i,
                {
                    let a2 = scan_step(*op, &acc, &vs[i], ty, span, stage_index, i)?;
                    let ghost old_out = out@;
                    out.push(a2);
                    proof {
                        match scan_from(*op, a2, vs@, span, stage_index, i + 1) {
                            Ok(s) => assert(old_out + (seq![a2] + s) == out@ + s),
                            Err(_) => {},
                        }
                    }
                    acc = a2;
                    i = i + 1;
                }
                assert(out@ + Seq::<Val>::empty() == out@);
                Ok(RunOutcome::Stream(out))
            },
            Stage::Reduce { op, .. } => {
                let v = reduce_op(*op, &vs, ty, span, stage_index)?;
                Ok(RunOutcome::Scalar(v))
            },
            Stage::Take { n, .. } => {
                let ghost orig = vs@;
                let mut vs = vs;
                vs.truncate(*n as usize);
                assert(vs@ == (if (*n as int) < orig.len() { orig.take(*n as int) } else { orig }));
                Ok(RunOutcome::Stream(vs))
            },
            Stage::Drop { n, .. } => {
                let n = *n as usize;
                if n > vs.len() {
                    Ok(RunOutcome::Stream(Vec::new()))
                } else {
                    let mut out: Vec<Val> = Vec::new();
                    let mut i: usize = n;
                    while i < vs.len()
                        invariant
                            n <= i <= vs@.len(),
                            out@ == vs@.subrange(n as int, i as int),
                        decreases vs@.len() - i,
                    {
                        out.push(vs[i]);
                        i = i + 1;
                        assert(vs@.subrange(n as int, i as int) == vs@.subrange(n as int, i - 1).push(vs@[i - 1]));
                    }
                    assert(out@ == vs@.skip(n as int));
                    Ok(RunOutcome::Stream(out))
                }
            },
            Stage::Id { .. } => Ok(RunOutcome::Stream(vs)),
        },
    }
}

fn elem_ty_of_stream(vs: &Vec<Val>) -> (t: ElemTy)
    ensures
        t == stream_ty(vs@),
{
    if vs.len() > 0 {
        match vs[0] {
            Val::I32(_) => ElemTy::I32,
            Val::I64(_) => ElemTy::I64,
            Val::Bool(_) => ElemTy::Bool,
        }
    } else {
        ElemTy::I32
    }
}

fn internal_mismatch(message: &str, stage_span: Span, stage_index: usize, element_index: usize) -> (e: LirError)
    ensures
        e@ == fault_view(Fault::Mismatch, stage_span, stage_index, element_index),
        runtime_prose_ok(e),
{
    proof {
        lemma_runtime_prose();
    }
    runtime_error("R_INDEX", stage_span, message, "Report a compiler bug.", stage_index, Some(element_index))
}

fn eval_pred(
    p: &Predicate,
    v: &Val,
    ty: ElemTy,
    stage_span: Span,
    stage_index: usize,
    element_index: usize,
) -> (r: Result<bool, LirError>)
    ensures
        matches_fault(r, eval_pred_spec(*p, *v, ty), stage_span, stage_index, element_index),
        r matches Err(x) ==> runtime_prose_ok(x),
    decreases p,
{
    proof {
        lemma_runtime_prose();
    }
    match p {
        Predicate::Or { left, right, .. } => {
            if eval_pred(left, v, ty, stage_span, stage_index, element_index)? {
                Ok(true)
            } else {
                eval_pred(right, v, ty, stage_span, stage_index, element_index)
            }
        },
        Predicate::And { left, right, .. } => {
            if !eval_pred(left, v, ty, stage_span, stage_index, element_index)? {
                Ok(false)
            } else {
                eval_pred(right, v, ty, stage_span, stage_index, element_index)
            }
        },
        Predicate::Not { inner, .. } => {
            let b = eval_pred(inner, v, ty, stage_span, stage_index, element_index)?;
            Ok(!b)
        },
        Predicate::Even { .. } => {
            let n = as_int(v, ty, stage_span, stage_index, element_index)?;
            let rem = n.checked_rem(2);
            Ok(rem == Some(0i64))
        },
        Predicate::Odd { .. } => {
            let n = as_int(v, ty, stage_span, stage_index, element_index)?;
            let rem = n.checked_rem(2);
            Ok(rem != Some(0i64))
        },
        Predicate::Cmp { op, rhs, .. } => compare_val(*op, v, ty, rhs, stage_span, stage_index, element_index),
    }
}

fn compare_val(
    op: CmpOp,
    v: &Val,
    ty: ElemTy,
    rhs: &CmpRhs,
    stage_span: Span,
    stage_index: usize,
    element_index: usize,
) -> (r: Result<bool, LirError>)
    ensures
        matches_fault(r, compare_val_spec(op, *v, ty, *rhs), stage_span, stage_index, element_index),
        r matches Err(x) ==> runtime_prose_ok(x),
{
    proof {
        lemma_runtime_prose();
    }
    match (ty, v, rhs) {
        (ElemTy::Bool, Val::Bool(b), CmpRhs::Bool(r)) => match op {
            CmpOp::Eq => Ok(*b == *r),
            _ => Err(internal_mismatch("internal: non-eq bool cmp", stage_span, stage_index, element_index)),
        },
        (_, _, CmpRhs::Bool(_)) => Err(internal_mismatch(
            "internal: bool rhs on integer stream",
            stage_span,
            stage_index,
            element_index,
        )),
        (ElemTy::I32, Val::I32(l), CmpRhs::Int(r)) => {
            if *r < i32::MIN as i64 || *r > i32::MAX as i64 {
                return Err(internal_mismatch("cmp rhs out of range", stage_span, stage_index, element_index));
            }
            Ok(compare_i32(*l, *r as i32, op))
        },
        (ElemTy::I64, Val::I64(l), CmpRhs::Int(r)) => Ok(compare_i64(*l, *r, op)),
        _ => Err(internal_mismatch("internal cmp mismatch", stage_span, stage_index, element_index)),
    }
}

fn compare_i32(l: i32, r: i32, op: CmpOp) -> (b: bool)
    ensures
        b == compare_int(l as int, r as int, op),
{
    match op {
        CmpOp::Eq => l == r,
        CmpOp::Lt => l < r,
        CmpOp::Le => l <= r,
        CmpOp::Gt => l > r,
        CmpOp::Ge => l >= r,
    }
}

fn compare_i64(l: i64, r: i64, op: CmpOp) -> (b: bool)
    ensures
        b == compare_int(l as int, r as int, op),
{
    match op {
        CmpOp::Eq => l == r,
        CmpOp::Lt => l < r,
        CmpOp::Le => l <= r,
        CmpOp::Gt => l > r,
        CmpOp::Ge => l >= r,
    }
}

fn as_int(v: &Val, ty: ElemTy, stage_span: Span, stage_index: usize, element_index: usize) -> (r: Result<i64, LirError>)
    ensures
        match (r, as_int_spec(*v, ty)) {
            (Ok(a), Ok(b)) => a as int == b,
            (Err(e), Err(f)) => e@ == fault_view(f, stage_span, stage_index, element_index),
            _ => false,
        },
        r matches Err(x) ==> runtime_prose_ok(x),
{
    proof {
        lemma_runtime_prose();
    }
    match (ty, v) {
        (ElemTy::I32, Val::I32(x)) => Ok(*x as i64),
        (ElemTy::I64, Val::I64(x)) => Ok(*x),
        _ => Err(internal_mismatch("expected integer value", stage_span, stage_index, element_index)),
    }
}

fn eval_expr(e: &Expr, elem: &Val, stage_span: Span, stage_index: usize, element_index: usize) -> (r: Result<Val, LirError>)
    ensures
        matches_fault(r, eval_expr_spec(*e, *elem), stage_span, stage_index, element_index),
        r matches Err(x) ==> runtime_prose_ok(x),
    decreases e,
{
    proof {
        lemma_runtime_prose();
    }
    match e {
        Expr::Add { left, right, .. } => {
            let a = eval_expr(left, elem, stage_span, stage_index, element_index)?;
            let b = eval_expr(right, elem, stage_span, stage_index, element_index)?;
            val_add(&a, &b, stage_span, stage_index, element_index)
        },
        Expr::Sub { left, right, .. } => {
            let a = eval_expr(left, elem, stage_span, stage_index, element_index)?;
            let b = eval_expr(right, elem, stage_span, stage_index, element_index)?;
            val_sub(&a, &b, stage_span, stage_index, element_index)
        },
        Expr::Mul { left, right, .. } => {
            let a = eval_expr(left, elem, stage_span, stage_index, element_index)?;
            let b = eval_expr(right, elem, stage_span, stage_index, element_index)?;
            val_mul(&a, &b, stage_span, stage_index, element_index)
        },
        Expr::Div { left, right, .. } => {
            let a = eval_expr(left, elem, stage_span, stage_index, element_index)?;
            let b = eval_expr(right, elem, stage_span, stage_index, element_index)?;
            val_div(&a, &b, stage_span, stage_index, element_index)
        },
        Expr::Mod { left, right, .. } => {
            let a = eval_expr(left, elem, stage_span, stage_index, element_index)?;
            let b = eval_expr(right, elem, stage_span, stage_index, element_index)?;
            val_mod(&a, &b, stage_span, stage_index, element_index)
        },
        Expr::Neg { inner, .. } => {
            let v = eval_expr(inner, elem, stage_span, stage_index, element_index)?;
            val_neg(&v, stage_span, stage_index, element_index)
        },
        Expr::Dot { .. } => Ok(*elem),
        Expr::Lit { v, .. } => Ok(
            if !matches!(elem, Val::I64(_)) && *v >= i32::MIN as i64 && *v <= i32::MAX as i64 {
                Val::I32(*v as i32)
            } else {
                Val::I64(*v)
            },
        ),
    }
}

fn val_add(a: &Val, b: &Val, stage_span: Span, stage_index: usize, element_index: usize) -> (r: Result<Val, LirError>)
    ensures
        matches_fault(r, arith_spec(ScanOp::Add, *a, *b), stage_span, stage_index, element_index),
        r matches Err(x) ==> runtime_prose_ok(x),
{
    proof {
        lemma_runtime_prose();
    }
    match (a, b) {
        (Val::I32(x), Val::I32(y)) => match x.checked_add(*y) {
            Some(z) => Ok(Val::I32(z)),
            None => Err(runtime_overflow(stage_span, stage_index)),
        },
        (Val::I64(x), Val::I64(y)) => match x.checked_add(*y) {
            Some(z) => Ok(Val::I64(z)),
            None => Err(runtime_overflow(stage_span, stage_index)),
        },
        (Val::I32(x), Val::I64(y)) => match (*x as i64).checked_add(*y) {
            Some(z) => Ok(Val::I64(z)),
            None => Err(runtime_overflow(stage_span, stage_index)),
        },
        (Val::I64(x), Val::I32(y)) => match x.checked_add(*y as i64) {
            Some(z) => Ok(Val::I64(z)),
            None => Err(runtime_overflow(stage_span, stage_index)),
        },
        _ => Err(internal_mismatch("add type mismatch", stage_span, stage_index, element_index)),
    }
}

fn val_sub(a: &Val, b: &Val, stage_span: Span, stage_index: usize, element_index: usize) -> (r: Result<Val, LirError>)
    ensures
        matches_fault(r, arith_spec(ScanOp::Sub, *a, *b), stage_span, stage_index, element_index),
        r matches Err(x) ==> runtime_prose_ok(x),
{
    proof {
        lemma_runtime_prose();
    }
    match (a, b) {
        (Val::I32(x), Val::I32(y)) => match x.checked_sub(*y) {
            Some(z) => Ok(Val::I32(z)),
            None => Err(runtime_overflow(stage_span, stage_index)),
        },
        (Val::I64(x), Val::I64(y)) => match x.checked_sub(*y) {
            Some(z) => Ok(Val::I64(z)),
            None => Err(runtime_overflow(stage_span, stage_index)),
        },
        (Val::I32(x), Val::I64(y)) => match (*x as i64).checked_sub(*y) {
            Some(z) => Ok(Val::I64(z)),
            None => Err(runtime_overflow(stage_span, stage_index)),
        },
        (Val::I64(x), Val::I32(y)) => match x.checked_sub(*y as i64) {
            Some(z) => Ok(Val::I64(z)),
            None => Err(runtime_overflow(stage_span, stage_index)),
        },
        _ => Err(internal_mismatch("sub type mismatch", stage_span, stage_index, element_index)),
    }
}

fn val_mul(a: &Val, b: &Val, stage_span: Span, stage_index: usize, element_index: usize) -> (r: Result<Val, LirError>)
    ensures
        matches_fault(r, arith_spec(ScanOp::Mul, *a, *b), stage_span, stage_index, element_index),
        r matches Err(x) ==> runtime_prose_ok(x),
{
    proof {
        lemma_runtime_prose();
    }
    match (a, b) {
        (Val::I32(x), Val::I32(y)) => match x.checked_mul(*y) {
            Some(z) => Ok(Val::I32(z)),
            None => Err(runtime_overflow(stage_span, stage_index)),
        },
        (Val::I64(x), Val::I64(y)) => match x.checked_mul(*y) {
            Some(z) => Ok(Val::I64(z)),
            None => Err(runtime_overflow(stage_span, stage_index)),
        },
        (Val::I32(x), Val::I64(y)) => match (*x as i64).checked_mul(*y) {
            Some(z) => Ok(Val::I64(z)),
            None => Err(runtime_overflow(stage_span, stage_index)),
        },
        (Val::I64(x), Val::I32(y)) => match x.checked_mul(*y as i64) {
            Some(z) => Ok(Val::I64(z)),
            None => Err(runtime_overflow(stage_span, stage_index)),
        },
        _ => Err(internal_mismatch("mul type mismatch", stage_span, stage_index, element_index)),
    }
}

fn val_div(a: &Val, b: &Val, stage_span: Span, stage_index: usize, element_index: usize) -> (r: Result<Val, LirError>)
    ensures
        matches_fault(r, divmod_spec(true, *a, *b), stage_span, stage_index, element_index),
        r matches Err(x) ==> runtime_prose_ok(x),
{
    proof {
        lemma_runtime_prose();
    }
    match (a, b) {
        (Val::I32(x), Val::I32(y)) => {
            if *y == 0 {
                return Err(div_zero(stage_span, stage_index, element_index));
            }
            if *x == i32::MIN && *y == -1 {
                return Err(runtime_overflow(stage_span, stage_index));
            }
            proof { lemma_divmod_bounds(*x as int, *y as int, i32::MAX as int); }
            match x.checked_div(*y) {
                Some(q) => Ok(Val::I32(q)),
                None => Err(runtime_overflow(stage_span, stage_index)),
            }
        },
        (Val::I64(x), Val::I64(y)) => {
            if *y == 0 {
                return Err(div_zero(stage_span, stage_index, element_index));
            }
            if *x == i64::MIN && *y == -1 {
                return Err(runtime_overflow(stage_span, stage_index));
            }
            proof { lemma_divmod_bounds(*x as int, *y as int, i64::MAX as int); }
            match x.checked_div(*y) {
                Some(q) => Ok(Val::I64(q)),
                None => Err(runtime_overflow(stage_span, stage_index)),
            }
        },
        (Val::I32(x), Val::I64(y)) => {
            let x = *x as i64;
            if *y == 0 {
                return Err(div_zero(stage_span, stage_index, element_index));
            }
            if x == i64::MIN && *y == -1 {
                return Err(runtime_overflow(stage_span, stage_index));
            }
            proof { lemma_divmod_bounds(x as int, *y as int, i64::MAX as int); }
            match x.checked_div(*y) {
                Some(q) => Ok(Val::I64(q)),
                None => Err(runtime_overflow(stage_span, stage_index)),
            }
        },
        (Val::I64(x), Val::I32(y)) => {
            let y = *y as i64;
            if y == 0 {
                return Err(div_zero(stage_span, stage_index, element_index));
            }
            if *x == i64::MIN && y == -1 {
                return Err(runtime_overflow(stage_span, stage_index));
            }
            proof { lemma_divmod_bounds(*x as int, y as int, i64::MAX as int); }
            match x.checked_div(y) {
                Some(q) => Ok(Val::I64(q)),
                None => Err(runtime_overflow(stage_span, stage_index)),
            }
        },
        _ => Err(internal_mismatch("div type mismatch", stage_span, stage_index, element_index)),
    }
}

fn val_mod(a: &Val, b: &Val, stage_span: Span, stage_index: usize, element_index: usize) -> (r: Result<Val, LirError>)
    ensures
        matches_fault(r, divmod_spec(false, *a, *b), stage_span, stage_index, element_index),
        r matches Err(x) ==> runtime_prose_ok(x),
{
    proof {
        lemma_runtime_prose();
    }
    match (a, b) {
        (Val::I32(x), Val::I32(y)) => {
            if *y == 0 {
                return Err(div_zero(stage_span, stage_index, element_index));
            }
            if *x == i32::MIN && *y == -1 {
                return Err(runtime_overflow(stage_span, stage_index));
            }
            proof { lemma_divmod_bounds(*x as int, *y as int, i32::MAX as int); }
            match x.checked_rem(*y) {
                Some(q) => Ok(Val::I32(q)),
                None => Err(runtime_overflow(stage_span, stage_index)),
            }
        },
        (Val::I64(x), Val::I64(y)) => {
            if *y == 0 {
                return Err(div_zero(stage_span, stage_index, element_index));
            }
            if *x == i64::MIN && *y == -1 {
                return Err(runtime_overflow(stage_span, stage_index));
            }
            proof { lemma_divmod_bounds(*x as int, *y as int, i64::MAX as int); }
            match x.checked_rem(*y) {
                Some(q) => Ok(Val::I64(q)),
                None => Err(runtime_overflow(stage_span, stage_index)),
            }
        },
        (Val::I32(x), Val::I64(y)) => {
            let x = *x as i64;
            if *y == 0 {
                return Err(div_zero(stage_span, stage_index, element_index));
            }
            if x == i64::MIN && *y == -1 {
                return Err(runtime_overflow(stage_span, stage_index));
            }
            proof { lemma_divmod_bounds(x as int, *y as int, i64::MAX as int); }
            match x.checked_rem(*y) {
                Some(q) => Ok(Val::I64(q)),
                None => Err(runtime_overflow(stage_span, stage_index)),
            }
        },
        (Val::I64(x), Val::I32(y)) => {
            let y = *y as i64;
            if y == 0 {
                return Err(div_zero(stage_span, stage_index, element_index));
            }
            if *x == i64::MIN && y == -1 {
                return Err(runtime_overflow(stage_span, stage_index));
            }
            proof { lemma_divmod_bounds(*x as int, y as int, i64::MAX as int); }
            match x.checked_rem(y) {
                Some(q) => Ok(Val::I64(q)),
                None => Err(runtime_overflow(stage_span, stage_index)),
            }
        },
        _ => Err(internal_mismatch("mod type mismatch", stage_span, stage_index, element_index)),
    }
}

fn val_neg(v: &Val, stage_span: Span, stage_index: usize, element_index: usize) -> (r: Result<Val, LirError>)
    ensures
        matches_fault(r, neg_spec(*v), stage_span, stage_index, element_index),
        r matches Err(x) ==> runtime_prose_ok(x),
{
    proof {
        lemma_runtime_prose();
    }
    match v {
        Val::I32(x) => match 0i32.checked_sub(*x) {
            Some(z) => Ok(Val::I32(z)),
            None => Err(runtime_overflow(stage_span, stage_index)),
        },
        Val::I64(x) => match 0i64.checked_sub(*x) {
            Some(z) => Ok(Val::I64(z)),
            None => Err(runtime_overflow(stage_span, stage_index)),
        },
        _ => Err(internal_mismatch("neg type mismatch", stage_span, stage_index, element_index)),
    }
}

fn scan_init_val(init: i64, ty: ElemTy, stage_span: Span, stage_index: usize) -> (r: Result<Val, LirError>)
    ensures
        matches_view(r, scan_init_spec(init, ty, stage_span, stage_index)),
        r matches Err(x) ==> runtime_prose_ok(x),
{
    proof {
        lemma_runtime_prose();
    }
    match ty {
        ElemTy::I32 => {
            if init < i32::MIN as i64 || init > i32::MAX as i64 {
                return Err(runtime_error(
                    "R_SCAN_INIT_RANGE",
                    stage_span,
                    "scan init does not fit i32",
                    "Fix initializer or use i64 streams.",
                    stage_index,
                    None,
                ));
            }
            Ok(Val::I32(init as i32))
        },
        ElemTy::I64 => Ok(Val::I64(init)),
        ElemTy::Bool => Err(runtime_error(
            "R_INDEX",
            stage_span,
            "internal: scan on bool stream",
            "Report a compiler bug.",
            stage_index,
            None,
        )),
    }
}

fn scan_step(
    op: ScanOp,
    acc: &Val,
    v: &Val,
    _ty: ElemTy,
    stage_span: Span,
    stage_index: usize,
    element_index: usize,
) -> (r: Result<Val, LirError>)
    ensures
        matches_fault(r, arith_spec(op, *acc, *v), stage_span, stage_index, element_index),
        r matches Err(x) ==> runtime_prose_ok(x),
{
    proof {
        lemma_runtime_prose();
    }
    match op {
        ScanOp::Add => val_add(acc, v, stage_span, stage_index, element_index),
        ScanOp::Sub => val_sub(acc, v, stage_span, stage_index, element_index),
        ScanOp::Mul => val_mul(acc, v, stage_span, stage_index, element_index),
    }
}

fn reduce_op(op: ReduceOp, vs: &Vec<Val>, ty: ElemTy, stage_span: Span, stage_index: usize) -> (r: Result<Val, LirError>)
    ensures
        matches_view(r, reduce_spec(op, vs@, ty, stage_span, stage_index)),
        r matches Err(x) ==> runtime_prose_ok(x),
{
    proof {
        lemma_runtime_prose();
    }
    match op {
        ReduceOp::Count => Ok(Val::I32(vs.len() as i32)),
        ReduceOp::Sum | ReduceOp::Prod => {
            let is_sum = op == ReduceOp::Sum;
            if vs.len() == 0 {
                return match ty {
                    ElemTy::I32 => Ok(Val::I32(if is_sum { 0 } else { 1 })),
                    ElemTy::I64 => Ok(Val::I64(if is_sum { 0 } else { 1 })),
                    ElemTy::Bool => Err(runtime_error(
                        "R_INDEX",
                        stage_span,
                        if is_sum { "internal: sum on bool stream" } else { "internal: prod on bool stream" },
                        "Report a compiler bug.",
                        stage_index,
                        None,
                    )),
                };
            }
            let sop = if is_sum { ScanOp::Add } else { ScanOp::Mul };
            let mut acc = vs[0];
            let mut i: usize = 1;
            while i < vs.len()
                invariant
                    1 <= i <= vs@.len(),
                    is_sum == (op == ReduceOp::Sum),
                    sop == (if is_sum { ScanOp::Add } else { ScanOp::Mul }),
                    reduce_spec(op, vs@, ty, stage_span, stage_index) == fold_from(sop, acc, vs@, stage_span, stage_index, i as int),
                decreases vs@.len() - i,
            {
                acc = if is_sum {
                    val_add(&acc, &vs[i], stage_span, stage_index, i)?
                } else {
                    val_mul(&acc, &vs[i], stage_span, stage_index, i)?
                };
                i = i + 1;
            }
            Ok(acc)
        },
        ReduceOp::Min | ReduceOp::Max => {
            if vs.len() == 0 {
                return Err(runtime_error(
                    "R_REDUCE_EMPTY_MINMAX",
                    stage_span,
                    "min/max on empty stream",
                    "Guard with take/drop or handle empty input in host.",
                    stage_index,
                    None,
                ));
            }
            let is_min = op == ReduceOp::Min;
            let mut acc = vs[0];
            let mut i: usize = 1;
            while i < vs.len()
                invariant
                    1 <= i <= vs@.len(),
                    is_min == (op == ReduceOp::Min),
                    reduce_spec(op, vs@, ty, stage_span, stage_index) == minmax_from(is_min, acc, vs@, i as int),
                decreases vs@.len() - i,
            {
                acc = if is_min { val_min(&acc, &vs[i])? } else { val_max(&acc, &vs[i])? };
                i = i + 1;
            }
            Ok(acc)
        },
    }
}

fn val_min(a: &Val, b: &Val) -> (r: Result<Val, LirError>)
    ensures
        match minmax_spec(true, *a, *b) {
            Some(v) => r == Ok::<Val, LirError>(v),
            None => r matches Err(e) && e@ == minmax_mismatch(),
        },
        r matches Err(x) ==> runtime_prose_ok(x),
{
    proof {
        lemma_runtime_prose();
    }
    match (a, b) {
        (Val::I32(x), Val::I32(y)) => Ok(Val::I32(if *x <= *y { *x } else { *y })),
        (Val::I64(x), Val::I64(y)) => Ok(Val::I64(if *x <= *y { *x } else { *y })),
        (Val::I32(x), Val::I64(y)) => Ok(Val::I64(if (*x as i64) <= *y { *x as i64 } else { *y })),
        (Val::I64(x), Val::I32(y)) => Ok(Val::I64(if *x <= (*y as i64) { *x } else { *y as i64 })),
        _ => Err(runtime_error("R_INDEX", Span::new(0, 0), "min mismatch", "Report a compiler bug.", 0, None)),
    }
}

fn val_max(a: &Val, b: &Val) -> (r: Result<Val, LirError>)
    ensures
        match minmax_spec(false, *a, *b) {
            Some(v) => r == Ok::<Val, LirError>(v),
            None => r matches Err(e) && e@ == minmax_mismatch(),
        },
        r matches Err(x) ==> runtime_prose_ok(x),
{
    proof {
        lemma_runtime_prose();
    }
    match (a, b) {
        (Val::I32(x), Val::I32(y)) => Ok(Val::I32(if *x >= *y { *x } else { *y })),
        (Val::I64(x), Val::I64(y)) => Ok(Val::I64(if *x >= *y { *x } else { *y })),
        (Val::I32(x), Val::I64(y)) => Ok(Val::I64(if (*x as i64) >= *y { *x as i64 } else { *y })),
        (Val::I64(x), Val::I32(y)) => Ok(Val::I64(if *x >= (*y as i64) { *x } else { *y as i64 })),
        _ => Err(runtime_error("R_INDEX", Span::new(0, 0), "max mismatch", "Report a compiler bug.", 0, None)),
    }
}

fn runtime_overflow(span: Span, stage_index: usize) -> (e: LirError)
    ensures
        e@ == runtime_err("R_INTEGER_OVERFLOW"@, span, stage_index, None),
        runtime_prose_ok(e),
{
    proof {
        lemma_runtime_prose();
    }
    runtime_error(
        "R_INTEGER_OVERFLOW",
        span,
        "integer overflow",
        "Use a smaller intermediate range or i64 streams.",
        stage_index,
        None,
    )
}

fn div_zero(span: Span, stage_index: usize, element_index: usize) -> (e: LirError)
    ensures
        e@ == runtime_err("R_DIV_BY_ZERO"@, span, stage_index, Some(element_index)),
        runtime_prose_ok(e),
{
    proof {
        lemma_runtime_prose();
    }
    runtime_error(
        "R_DIV_BY_ZERO",
        span,
        "division or remainder by zero",
        "Avoid zero divisors in map/mod/div.",
        stage_index,
        Some(element_index),
    )
}

} // verus!
