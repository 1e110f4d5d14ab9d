//! LLVM IR (text) for `i32` / `i64` streams and `bool` streams (`i8` 0/1).
//!
//! A program is first lowered to a [`Plan`]: an optional take/drop prefix, the element width,
//! the filter/map operations before and after at most one `scan`, and the final `reduce`.
//! Range and `lit` sources are materialized as a constant array. The plan is then printed as
//! one `@lir_main` function whose `map` expressions use checked overflow intrinsics.

use vstd::prelude::*;
use crate::ast::{ElemTy, Expr, LitElem, Predicate, Program, ReduceOp, ScanOp, Source, Stage};
use crate::ast::{clone_expr, clone_predicate};
use crate::error::{runtime_err, runtime_error, type_err, type_error, ErrorView, LirError, Span};
use crate::interp::{fits_i32, range_from, prepend, Val};
use crate::types::{source_stream_ty, source_ty_spec};
use crate::llvm_text::{emit_loop_core, loop_core_text, ret_ty_text, ty_text, LoopMode, llvm_fn_ret_ty};
use crate::text::{chars_of, int_decimal, nat_decimal, push_i64, push_str, push_u64, push_usize, string_of};

verus! {

/// Largest number of elements embedded as a constant array.
pub const MAX_MATERIALIZED_LEN: usize = 0x100000;

/// Width of the stream elements in LLVM.
#[derive(Clone, Copy, Debug, PartialEq, Eq, Structural)]
pub enum IntWidth {
    /// `i8` in LLVM (`true` is 1, `false` is 0).
    W8,
    W32,
    W64,
}

/// One filter or map step of the fused loop.
#[derive(Debug)]
pub enum PipelineOp {
    Filter(Predicate),
    MapEach(Expr),
}

/// Where the loop takes its elements from.
#[derive(Debug)]
pub enum PlanKind {
    /// The caller's input buffer, after dropping `drop` and keeping at most `take`.
    Input { drop: u32, take: Option<u32> },
    ArrayI32 { elems: Vec<i32> },
    ArrayI64 { elems: Vec<i64> },
    /// Boolean stream as `i8` 0/1.
    ArrayI8 { elems: Vec<u8> },
}

/// A program lowered for code generation.
#[derive(Debug)]
pub struct Plan {
    pub width: IntWidth,
    pub kind: PlanKind,
    pub pre_scan: Vec<PipelineOp>,
    pub post_scan: Vec<PipelineOp>,
    pub scan: Option<(i64, ScanOp)>,
    pub reduce: ReduceOp,
}

/// Mathematical view of a [`PlanKind`].
pub enum PlanKindView {
    Input { drop: u32, take: Option<u32> },
    ArrayI32 { elems: Seq<i32> },
    ArrayI64 { elems: Seq<i64> },
    ArrayI8 { elems: Seq<u8> },
}

/// Mathematical view of a [`Plan`].
pub struct PlanView {
    pub width: IntWidth,
    pub kind: PlanKindView,
    pub pre_scan: Seq<PipelineOp>,
    pub post_scan: Seq<PipelineOp>,
    pub scan: Option<(i64, ScanOp)>,
    pub reduce: ReduceOp,
}

impl View for PlanKind {
    type V = PlanKindView;

    open spec fn view(&self) -> PlanKindView {
        match self {
            PlanKind::Input { drop, take } => PlanKindView::Input { drop: *drop, take: *take },
            PlanKind::ArrayI32 { elems } => PlanKindView::ArrayI32 { elems: elems@ },
            PlanKind::ArrayI64 { elems } => PlanKindView::ArrayI64 { elems: elems@ },
            PlanKind::ArrayI8 { elems } => PlanKindView::ArrayI8 { elems: elems@ },
        }
    }
}

impl View for Plan {
    type V = PlanView;

    open spec fn view(&self) -> PlanView {
        PlanView {
            width: self.width,
            kind: self.kind@,
            pre_scan: self.pre_scan@,
            post_scan: self.post_scan@,
            scan: self.scan,
            reduce: self.reduce,
        }
    }
}

/// The diagnostic for a program outside the code generation subset.
pub open spec fn codegen_err_v(span: Span) -> ErrorView {
    type_err("T_CODEGEN_UNSUPPORTED"@, span, None)
}

/// `a + b`, or `u32::MAX` when that overflows.
pub open spec fn sat_add_u32(a: u32, b: u32) -> u32 {
    if a + b > u32::MAX { u32::MAX } else { (a + b) as u32 }
}

/// A take limit after `n` more elements are dropped.
pub open spec fn take_after_drop(take: Option<u32>, n: u32) -> Option<u32> {
    match take {
        Some(t) => Some(if t > n { (t - n) as u32 } else { 0 }),
        None => None,
    }
}

/// The run of `take` / `drop` / `id` stages of `mid` that starts at `i`, folded in program
/// order into one cut "drop `drop` elements, then keep at most `take`", and the end of the
/// run. A `drop` after a `take` also shortens the take.
pub open spec fn prefix_from(mid: Seq<Stage>, i: int, drop: u32, take: Option<u32>) -> (u32, Option<u32>, int)
    decreases mid.len() - i,
{
    if 0 <= i < mid.len() {
        match mid[i] {
            Stage::Drop { n, .. } => prefix_from(mid, i + 1, sat_add_u32(drop, n), take_after_drop(take, n)),
            Stage::Take { n, .. } => prefix_from(
                mid,
                i + 1,
                drop,
                Some(
                    match take {
                        Some(t) => if t < n { t } else { n },
                        None => n,
                    },
                ),
            ),
            Stage::Id { .. } => prefix_from(mid, i + 1, drop, take),
            _ => (drop, take, i),
        }
    } else {
        (drop, take, i)
    }
}

/// LLVM width of a stream element type.
pub open spec fn width_of(ty: ElemTy) -> IntWidth {
    match ty {
        ElemTy::Bool => IntWidth::W8,
        ElemTy::I32 => IntWidth::W32,
        ElemTy::I64 => IntWidth::W64,
    }
}

/// `op` in front of the operations of a successful result.
pub open spec fn prepend_op(op: PipelineOp, r: Result<(Seq<PipelineOp>, Option<(i64, ScanOp)>, int), ErrorView>) -> Result<(Seq<PipelineOp>, Option<(i64, ScanOp)>, int), ErrorView> {
    match r {
        Ok((ops, scan, k)) => Ok((seq![op] + ops, scan, k)),
        Err(e) => Err(e),
    }
}

/// The operations of `tail[ti..]` before the scan, the scan that ends them (if any), and
/// the index after it. `base` is the index of `tail[0]` among the stages.
pub open spec fn pre_scan_from(tail: Seq<Stage>, ti: int, width: IntWidth, base: int) -> Result<(Seq<PipelineOp>, Option<(i64, ScanOp)>, int), ErrorView>
    decreases tail.len() - ti,
{
    if 0 <= ti < tail.len() {
        match tail[ti] {
            Stage::Filter { pred, .. } => prepend_op(PipelineOp::Filter(pred), pre_scan_from(tail, ti + 1, width, base)),
            Stage::MapEach { expr, .. } => prepend_op(PipelineOp::MapEach(expr), pre_scan_from(tail, ti + 1, width, base)),
            Stage::Id { .. } => pre_scan_from(tail, ti + 1, width, base),
            Stage::Scan { init, op, span } => if width == IntWidth::W8 {
                Err(codegen_err_v(span))
            } else if width == IntWidth::W32 && !fits_i32(init as int) {
                Err(runtime_err("R_SCAN_INIT_RANGE"@, span, (ti + base) as usize, None))
            } else {
                Ok((Seq::empty(), Some((init, op)), ti + 1))
            },
            Stage::Take { span, .. } => Err(codegen_err_v(span)),
            Stage::Drop { span, .. } => Err(codegen_err_v(span)),
            Stage::Reduce { span, .. } => Err(codegen_err_v(span)),
        }
    } else {
        Ok((Seq::empty(), None, ti))
    }
}

/// The operations of `tail[ti..]` after the scan: only filter, map and id may stand there.
pub open spec fn post_scan_from(tail: Seq<Stage>, ti: int) -> Result<Seq<PipelineOp>, ErrorView>
    decreases tail.len() - ti,
{
    if 0 <= ti < tail.len() {
        match tail[ti] {
            Stage::Filter { pred, .. } => match post_scan_from(tail, ti + 1) {
                Ok(ops) => Ok(seq![PipelineOp::Filter(pred)] + ops),
                Err(e) => Err(e),
            },
            Stage::MapEach { expr, .. } => match post_scan_from(tail, ti + 1) {
                Ok(ops) => Ok(seq![PipelineOp::MapEach(expr)] + ops),
                Err(e) => Err(e),
            },
            Stage::Id { .. } => post_scan_from(tail, ti + 1),
            Stage::Scan { span, .. } => Err(codegen_err_v(span)),
            Stage::Take { span, .. } => Err(codegen_err_v(span)),
            Stage::Drop { span, .. } => Err(codegen_err_v(span)),
            Stage::Reduce { span, .. } => Err(codegen_err_v(span)),
        }
    } else {
        Ok(Seq::empty())
    }
}

/// `s` without its first `drop` elements, then cut to at most `take` elements.
pub open spec fn drop_take<T>(s: Seq<T>, drop: u32, take: Option<u32>) -> Seq<T> {
    let d = if drop >= s.len() { Seq::empty() } else { s.skip(drop as int) };
    match take {
        Some(t) => if d.len() > t { d.take(t as int) } else { d },
        None => d,
    }
}

/// The `i32` inside a value (0 for other values).
pub open spec fn i32_of(v: Val) -> i32 {
    match v {
        Val::I32(x) => x,
        _ => 0,
    }
}

/// A `lit` element as an `i8` 0/1 (0 for non-booleans).
pub open spec fn lit_u8(e: LitElem) -> u8 {
    match e {
        LitElem::Bool(b) => if b { 1 } else { 0 },
        _ => 0,
    }
}

/// A `lit` element as `i32` (truncated `i64`, 0 for booleans).
pub open spec fn lit_i32(e: LitElem) -> i32 {
    match e {
        LitElem::I32(v) => v,
        LitElem::I64(v) => v as i32,
        LitElem::Bool(_) => 0,
    }
}

/// A `lit` element as `i64` (0 for booleans).
pub open spec fn lit_i64(e: LitElem) -> i64 {
    match e {
        LitElem::I32(v) => v as i64,
        LitElem::I64(v) => v,
        LitElem::Bool(_) => 0,
    }
}

/// The elements the loop reads, for a source whose element width is `width`.
pub open spec fn plan_kind_spec(src: Source, width: IntWidth, drop: u32, take: Option<u32>) -> Result<PlanKindView, ErrorView> {
    match src {
        Source::Input { .. } => Ok(PlanKindView::Input { drop, take }),
        Source::Range { start, stop, step, span } => match range_from(start as int, stop as int, step as int, span) {
            Err(e) => Err(e),
            Ok(vals) => {
                let v = drop_take(vals.map_values(|x: Val| i32_of(x)), drop, take);
                if v.len() > MAX_MATERIALIZED_LEN {
                    Err(type_err("T_CODEGEN_TOO_LARGE"@, span, None))
                } else {
                    Ok(PlanKindView::ArrayI32 { elems: v })
                }
            },
        },
        Source::Lit { elems, span } => match width {
            IntWidth::W8 => {
                let v = drop_take(elems@.map_values(|e: LitElem| lit_u8(e)), drop, take);
                if v.len() > MAX_MATERIALIZED_LEN {
                    Err(type_err("T_CODEGEN_TOO_LARGE"@, span, None))
                } else {
                    Ok(PlanKindView::ArrayI8 { elems: v })
                }
            },
            IntWidth::W32 => {
                let v = drop_take(elems@.map_values(|e: LitElem| lit_i32(e)), drop, take);
                if v.len() > MAX_MATERIALIZED_LEN {
                    Err(type_err("T_CODEGEN_TOO_LARGE"@, span, None))
                } else {
                    Ok(PlanKindView::ArrayI32 { elems: v })
                }
            },
            IntWidth::W64 => {
                let v = drop_take(elems@.map_values(|e: LitElem| lit_i64(e)), drop, take);
                if v.len() > MAX_MATERIALIZED_LEN {
                    Err(type_err("T_CODEGEN_TOO_LARGE"@, span, None))
                } else {
                    Ok(PlanKindView::ArrayI64 { elems: v })
                }
            },
        },
    }
}

/// The plan of a program, or the diagnostic that keeps it out of code generation.
pub open spec fn plan_spec(p: Program) -> Result<PlanView, ErrorView> {
    let stages = p.stages@;
    if stages.len() == 0 || !(stages.last() is Reduce) {
        Err(codegen_err_v(p.span))
    } else {
        let reduce = stages.last()->Reduce_op;
        let mid = stages.drop_last();
        let (drop, take, pe) = prefix_from(mid, 0, 0, None);
        match source_ty_spec(p.source) {
            Err(e) => Err(e),
            Ok(ty) => {
                let width = width_of(ty);
                let tail = mid.subrange(pe, mid.len() as int);
                match pre_scan_from(tail, 0, width, pe) {
                    Err(e) => Err(e),
                    Ok((pre, scan, ti)) => match post_scan_from(tail, ti) {
                        Err(e) => Err(e),
                        Ok(post) => match plan_kind_spec(p.source, width, drop, take) {
                            Err(e) => Err(e),
                            Ok(kind) => Ok(PlanView { width, kind, pre_scan: pre, post_scan: post, scan, reduce }),
                        },
                    },
                }
            },
        }
    }
}

/// Advice attached to every code generation diagnostic.
pub const CODEGEN_FIX_HINT: &'static str = "Use input:i32|i64|bool or materialized range/lit, prefix take/drop, then filter/map/id in order, optional scan, then filter/map/id, reduce sum|prod|count|min|max.";

fn codegen_err(span: Span, msg: &str) -> (e: LirError)
    ensures
        e@ == codegen_err_v(span),
{
    type_error("T_CODEGEN_UNSUPPORTED", span, msg, CODEGEN_FIX_HINT, None)
}

/// The values of `range(start, stop, step)` as `i32`s.
fn materialize_range(start: i64, stop: i64, step: i64, span: Span) -> (r: Result<Vec<i32>, LirError>)
    ensures
        match (r, range_from(start as int, stop as int, step as int, span)) {
            (Ok(v), Ok(s)) => v@ == s.map_values(|x: Val| i32_of(x)),
            (Err(e), Err(x)) => e@ == x,
            _ => false,
        },
{
    let mut out: Vec<i32> = Vec::new();
    let mut x = start;
    loop
        invariant
            range_from(start as int, stop as int, step as int, span)
                == prepend(out@.map_values(|y: i32| Val::I32(y)), range_from(x as int, stop as int, step as int, span)),
        ensures
            (step > 0 && x >= stop) || (step < 0 && x <= stop),
            range_from(start as int, stop as int, step as int, span)
                == prepend(out@.map_values(|y: i32| Val::I32(y)), range_from(x as int, stop as int, step as int, span)),
        decreases (if step > 0 { i64::MAX - x } else { x - i64::MIN }),
    {
        if step > 0 {
            if x >= stop {
                break;
            }
        } else if step < 0 {
            if x <= stop {
                break;
            }
        } else {
            return Err(runtime_error("R_RANGE_STEP", span, "zero step", "", 0, None));
        }
        if x < -2147483648 || x > 2147483647 {
            return Err(runtime_error("R_RANGE_ELEM_RANGE", span, "range value does not fit i32", "", 0, None));
        }
        let ghost old_vals = out@.map_values(|y: i32| Val::I32(y));
        out.push(x as i32);
        let ghost new_vals = out@.map_values(|y: i32| Val::I32(y));
        assert(new_vals =~= old_vals + seq![Val::I32(x as i32)]);
        match x.checked_add(step) {
            Some(nx) => {
                proof {
                    match range_from(nx as int, stop as int, step as int, span) {
                        Ok(s) => {
                            assert(old_vals + (seq![Val::I32(x as i32)] + s) == new_vals + s);
                        },
                        Err(_) => {},
                    }
                }
                x = nx;
            },
            None => {
                return Err(runtime_error("R_INTEGER_OVERFLOW", span, "range step overflow", "", 0, None));
            },
        }
    }
    proof {
        let vals = out@.map_values(|y: i32| Val::I32(y));
        assert(vals + Seq::<Val>::empty() == vals);
        assert(vals.map_values(|v: Val| i32_of(v)) =~= out@);
    }
    Ok(out)
}

/// Drops the first `drop` elements, then keeps at most `take`.
fn apply_drop_take<T: Copy>(vals: &mut Vec<T>, drop: u32, take: Option<u32>)
    ensures
        final(vals)@ == drop_take(old(vals)@, drop, take),
{
    let n = vals.len();
    let d = drop as usize;
    let lo = if d >= n { n } else { d };
    let hi = match take {
        Some(t) => if n - lo > t as usize { lo + t as usize } else { n },
        None => n,
    };
    let mut out: Vec<T> = Vec::new();
    let mut k = lo;
    while k < hi
        invariant
            lo <= k <= hi <= n == vals@.len(),
            out@ == vals@.subrange(lo as int, k as int),
        decreases hi - k,
    {
        out.push(vals[k]);
        k = k + 1;
    }
    proof {
        let s = vals@;
        let dd = if drop >= s.len() { Seq::<T>::empty() } else { s.skip(drop as int) };
        assert(dd =~= s.subrange(lo as int, n as int));
        match take {
            Some(t) => {
                if dd.len() > t {
                    assert(dd.take(t as int) =~= s.subrange(lo as int, hi as int));
                } else {
                    assert(hi == n);
                }
            },
            None => {},
        }
    }
    *vals = out;
}

/// The accumulated take/drop prefix of `stages[..m]`.
fn lower_prefix(stages: &Vec<Stage>, m: usize) -> (r: (u32, Option<u32>, usize))
    requires
        m <= stages@.len(),
    ensures
        (r.0, r.1, r.2 as int) == prefix_from(stages@.subrange(0, m as int), 0, 0, None),
        r.2 <= m,
{
    let ghost mid = stages@.subrange(0, m as int);
    let mut drop_acc: u32 = 0;
    let mut take_acc: Option<u32> = None;
    let mut i: usize = 0;
    while i < m
        invariant
            i <= m <= stages@.len(),
            mid == stages@.subrange(0, m as int),
            prefix_from(mid, 0, 0, None) == prefix_from(mid, i as int, drop_acc, take_acc),
        decreases m - i,
    {
        assert(mid[i as int] == stages@[i as int]);
        match &stages[i] {
            Stage::Drop { n, .. } => {
                drop_acc = if drop_acc as u64 + *n as u64 > 0xffff_ffff { 0xffff_ffff } else { drop_acc + *n };
                take_acc = match take_acc {
                    Some(t) => Some(if t > *n { t - *n } else { 0 }),
                    None => None,
                };
            },
            Stage::Take { n, .. } => {
                take_acc = Some(
                    match take_acc {
                        Some(t) => if t < *n { t } else { *n },
                        None => *n,
                    },
                );
            },
            Stage::Id { .. } => {},
            _ => {
                return (drop_acc, take_acc, i);
            },
        }
        i = i + 1;
    }
    (drop_acc, take_acc, i)
}

/// `pre` in front of the operations of a successful result.
pub open spec fn prepend_ops(pre: Seq<PipelineOp>, r: Result<(Seq<PipelineOp>, Option<(i64, ScanOp)>, int), ErrorView>) -> Result<(Seq<PipelineOp>, Option<(i64, ScanOp)>, int), ErrorView> {
    match r {
        Ok((ops, scan, k)) => Ok((pre + ops, scan, k)),
        Err(e) => Err(e),
    }
}

fn clone_op_of_filter(pred: &Predicate) -> (op: PipelineOp)
    ensures
        op == PipelineOp::Filter(*pred),
{
    PipelineOp::Filter(clone_predicate(pred))
}

fn clone_op_of_map(expr: &Expr) -> (op: PipelineOp)
    ensures
        op == PipelineOp::MapEach(*expr),
{
    PipelineOp::MapEach(clone_expr(expr))
}

/// The operations before the scan in `stages[pe..m]`, the scan, and the index (within
/// `stages[pe..m]`) after it.
fn lower_pre_scan(stages: &Vec<Stage>, pe: usize, m: usize, width: IntWidth) -> (r: Result<(Vec<PipelineOp>, Option<(i64, ScanOp)>, usize), LirError>)
    requires
        pe <= m <= stages@.len(),
    ensures
        match (r, pre_scan_from(stages@.subrange(pe as int, m as int), 0, width, pe as int)) {
            (Ok((ops, scan, ti)), Ok((o, s, t))) => ops@ == o && scan == s && ti == t && ti <= m - pe,
            (Err(e), Err(x)) => e@ == x,
            _ => false,
        },
{
    let ghost tail = stages@.subrange(pe as int, m as int);
    let mut ops: Vec<PipelineOp> = Vec::new();
    let mut k: usize = pe;
    while k < m
        invariant
            pe <= k <= m <= stages@.len(),
            tail == stages@.subrange(pe as int, m as int),
            pre_scan_from(tail, 0, width, pe as int) == prepend_ops(ops@, pre_scan_from(tail, k - pe, width, pe as int)),
        decreases m - k,
    {
        let ghost pre = ops@;
        assert(tail[k - pe] == stages@[k as int]);
        match &stages[k] {
            Stage::Filter { pred, .. } => {
                let op = clone_op_of_filter(pred);
                ops.push(op);
                proof {
                    match pre_scan_from(tail, k + 1 - pe, width, pe as int) {
                        Ok((o, s, t)) => assert(pre + (seq![op] + o) == ops@ + o),
                        Err(_) => {},
                    }
                }
            },
            Stage::MapEach { expr, .. } => {
                let op = clone_op_of_map(expr);
                ops.push(op);
                proof {
                    match pre_scan_from(tail, k + 1 - pe, width, pe as int) {
                        Ok((o, s, t)) => assert(pre + (seq![op] + o) == ops@ + o),
                        Err(_) => {},
                    }
                }
            },
            Stage::Id { .. } => {},
            Stage::Scan { init, op, span } => {
                if width == IntWidth::W8 {
                    return Err(codegen_err(*span, "LLVM path does not support scan on bool streams"));
                }
                if width == IntWidth::W32 && (*init < -2147483648 || *init > 2147483647) {
                    return Err(runtime_error(
                        "R_SCAN_INIT_RANGE",
                        *span,
                        "scan init does not fit i32 stream for LLVM",
                        "Use an i32-sized initializer or input:i64.",
                        k,
                        None,
                    ));
                }
                assert(ops@ + Seq::<PipelineOp>::empty() == ops@);
                return Ok((ops, Some((*init, *op)), k + 1 - pe));
            },
            Stage::Take { span, .. } | Stage::Drop { span, .. } | Stage::Reduce { span, .. } => {
                return Err(codegen_err(*span, "take/drop must prefix the pipeline (before filter/map/scan)"));
            },
        }
        k = k + 1;
    }
    assert(ops@ + Seq::<PipelineOp>::empty() == ops@);
    Ok((ops, None, k - pe))
}

/// The operations after the scan: `stages[from..m]`, which holds only filter, map and id.
fn lower_post_scan(stages: &Vec<Stage>, pe: usize, from: usize, m: usize) -> (r: Result<Vec<PipelineOp>, LirError>)
    requires
        pe <= from <= m <= stages@.len(),
    ensures
        match (r, post_scan_from(stages@.subrange(pe as int, m as int), from - pe)) {
            (Ok(ops), Ok(o)) => ops@ == o,
            (Err(e), Err(x)) => e@ == x,
            _ => false,
        },
{
    let ghost tail = stages@.subrange(pe as int, m as int);
    let mut ops: Vec<PipelineOp> = Vec::new();
    let mut k: usize = from;
    while k < m
        invariant
            pe <= from <= k <= m <= stages@.len(),
            tail == stages@.subrange(pe as int, m as int),
            post_scan_from(tail, from - pe) == (match post_scan_from(tail, k - pe) {
                Ok(o) => Ok(ops@ + o),
                Err(e) => Err::<Seq<PipelineOp>, ErrorView>(e),
            }),
        decreases m - k,
    {
        let ghost pre = ops@;
        assert(tail[k - pe] == stages@[k as int]);
        match &stages[k] {
            Stage::Filter { pred, .. } => {
                let op = clone_op_of_filter(pred);
                ops.push(op);
                proof {
                    match post_scan_from(tail, k + 1 - pe) {
                        Ok(o) => assert(pre + (seq![op] + o) == ops@ + o),
                        Err(_) => {},
                    }
                }
            },
            Stage::MapEach { expr, .. } => {
                let op = clone_op_of_map(expr);
                ops.push(op);
                proof {
                    match post_scan_from(tail, k + 1 - pe) {
                        Ok(o) => assert(pre + (seq![op] + o) == ops@ + o),
                        Err(_) => {},
                    }
                }
            },
            Stage::Id { .. } => {},
            Stage::Scan { span, .. } | Stage::Take { span, .. } | Stage::Drop { span, .. } | Stage::Reduce { span, .. } => {
                return Err(codegen_err(*span, "LLVM path allows only filter, map, or id after scan"));
            },
        }
        k = k + 1;
    }
    assert(ops@ + Seq::<PipelineOp>::empty() == ops@);
    Ok(ops)
}

/// The elements the loop reads: the input buffer, or a materialized array.
fn plan_kind(src: &Source, width: IntWidth, drop: u32, take: Option<u32>) -> (r: Result<PlanKind, LirError>)
    requires
        source_ty_spec(*src) is Ok,
        width == width_of(source_ty_spec(*src)->Ok_0),
    ensures
        match (r, plan_kind_spec(*src, width, drop, take)) {
            (Ok(k), Ok(v)) => k@ == v,
            (Err(e), Err(x)) => e@ == x,
            _ => false,
        },
{
    match src {
        Source::Input { .. } => Ok(PlanKind::Input { drop, take }),
        Source::Range { start, stop, step, span } => {
            let mut vals = materialize_range(*start, *stop, *step, *span)?;
            apply_drop_take(&mut vals, drop, take);
            if vals.len() > MAX_MATERIALIZED_LEN {
                return Err(type_error("T_CODEGEN_TOO_LARGE", *span, "range too large to embed", "Use a smaller range.", None));
            }
            Ok(PlanKind::ArrayI32 { elems: vals })
        },
        Source::Lit { elems, span } => {
            let n = elems.len();
            match width {
                IntWidth::W8 => {
                    let mut vals: Vec<u8> = Vec::new();
                    let mut i: usize = 0;
                    while i < n
                        invariant
                            i <= n == elems@.len(),
                            vals@ == elems@.subrange(0, i as int).map_values(|e: LitElem| lit_u8(e)),
                        decreases n - i,
                    {
                        let b: u8 = match &elems[i] {
                            LitElem::Bool(b) => if *b { 1 } else { 0 },
                            _ => 0,
                        };
                        vals.push(b);
                        assert(elems@.subrange(0, i + 1).map_values(|e: LitElem| lit_u8(e))
                            =~= elems@.subrange(0, i as int).map_values(|e: LitElem| lit_u8(e)).push(lit_u8(elems@[i as int])));
                        i = i + 1;
                    }
                    assert(elems@.subrange(0, n as int) =~= elems@);
                    apply_drop_take(&mut vals, drop, take);
                    if vals.len() > MAX_MATERIALIZED_LEN {
                        return Err(type_error("T_CODEGEN_TOO_LARGE", *span, "lit too large", "Use a smaller lit().", None));
                    }
                    Ok(PlanKind::ArrayI8 { elems: vals })
                },
                IntWidth::W32 => {
                    proof {
                        assert(source_ty_spec(*src) == crate::types::lit_ty_spec(elems@, *span));
                        assert(forall|k: int| 0 <= k < n ==> !(#[trigger] elems@[k] is I64));
                    }
                    let mut vals: Vec<i32> = Vec::new();
                    let mut i: usize = 0;
                    while i < n
                        invariant
                            i <= n == elems@.len(),
                            forall|k: int| 0 <= k < n ==> !(#[trigger] elems@[k] is I64),
                            vals@ == elems@.subrange(0, i as int).map_values(|e: LitElem| lit_i32(e)),
                        decreases n - i,
                    {
                        let v: i32 = match &elems[i] {
                            LitElem::I32(v) => *v,
                            LitElem::I64(v) => {
                                assert(elems@[i as int] is I64);
                                if *v < -2147483648 || *v > 2147483647 {
                                    return Err(codegen_err(*span, "i64 literal out of i32 range for LLVM"));
                                }
                                *v as i32
                            },
                            LitElem::Bool(_) => 0,
                        };
                        vals.push(v);
                        assert(elems@.subrange(0, i + 1).map_values(|e: LitElem| lit_i32(e))
                            =~= elems@.subrange(0, i as int).map_values(|e: LitElem| lit_i32(e)).push(lit_i32(elems@[i as int])));
                        i = i + 1;
                    }
                    assert(elems@.subrange(0, n as int) =~= elems@);
                    apply_drop_take(&mut vals, drop, take);
                    if vals.len() > MAX_MATERIALIZED_LEN {
                        return Err(type_error("T_CODEGEN_TOO_LARGE", *span, "lit too large", "Use a smaller lit().", None));
                    }
                    Ok(PlanKind::ArrayI32 { elems: vals })
                },
                IntWidth::W64 => {
                    let mut vals: Vec<i64> = Vec::new();
                    let mut i: usize = 0;
                    while i < n
                        invariant
                            i <= n == elems@.len(),
                            vals@ == elems@.subrange(0, i as int).map_values(|e: LitElem| lit_i64(e)),
                        decreases n - i,
                    {
                        let v: i64 = match &elems[i] {
                            LitElem::I32(v) => *v as i64,
                            LitElem::I64(v) => *v,
                            LitElem::Bool(_) => 0,
                        };
                        vals.push(v);
                        assert(elems@.subrange(0, i + 1).map_values(|e: LitElem| lit_i64(e))
                            =~= elems@.subrange(0, i as int).map_values(|e: LitElem| lit_i64(e)).push(lit_i64(elems@[i as int])));
                        i = i + 1;
                    }
                    assert(elems@.subrange(0, n as int) =~= elems@);
                    apply_drop_take(&mut vals, drop, take);
                    if vals.len() > MAX_MATERIALIZED_LEN {
                        return Err(type_error("T_CODEGEN_TOO_LARGE", *span, "lit too large", "Use a smaller lit().", None));
                    }
                    Ok(PlanKind::ArrayI64 { elems: vals })
                },
            }
        },
    }
}

/// Lowers a program to a code generation plan, or says why it is outside the subset.
pub fn compile_plan(p: &Program) -> (r: Result<Plan, LirError>)
    ensures
        match (r, plan_spec(*p)) {
            (Ok(plan), Ok(v)) => plan@ == v,
            (Err(e), Err(x)) => e@ == x,
            _ => false,
        },
{
    let n = p.stages.len();
    if n == 0 {
        return Err(codegen_err(p.span, "last stage must be reduce"));
    }
    let reduce = match &p.stages[n - 1] {
        Stage::Reduce { op, .. } => *op,
        _ => {
            return Err(codegen_err(p.span, "last stage must be reduce"));
        },
    };
    let m = n - 1;
    let ghost mid = p.stages@.drop_last();
    assert(mid == p.stages@.subrange(0, m as int));
    let (drop_acc, take_acc, prefix_end) = lower_prefix(&p.stages, m);
    let src_ty = source_stream_ty(&p.source)?;
    let width = match src_ty {
        ElemTy::Bool => IntWidth::W8,
        ElemTy::I32 => IntWidth::W32,
        ElemTy::I64 => IntWidth::W64,
    };
    assert(mid.subrange(prefix_end as int, mid.len() as int) =~= p.stages@.subrange(prefix_end as int, m as int));
    let (pre_scan, scan, ti) = lower_pre_scan(&p.stages, prefix_end, m, width)?;
    let post_scan = lower_post_scan(&p.stages, prefix_end, prefix_end + ti, m)?;
    let kind = plan_kind(&p.source, width, drop_acc, take_acc)?;
    Ok(Plan { width, kind, pre_scan, post_scan, scan, reduce })
}

/// Whether a program is in the code generation subset: `Ok` exactly when
/// [`emit_llvm_ir`] succeeds, with the same diagnostic otherwise.
pub fn codegen_supported(p: &Program) -> (r: Result<(), LirError>)
    ensures
        match (r, plan_spec(*p)) {
            (Ok(_), Ok(_)) => true,
            (Err(e), Err(x)) => e@ == x,
            _ => false,
        },
{
    match compile_plan(p) {
        Ok(_) => Ok(()),
        Err(e) => Err(e),
    }
}

/// A character allowed in a target triple taken from the host.
pub open spec fn is_triple_char(c: char) -> bool {
    ('a' <= c && c <= 'z') || ('A' <= c && c <= 'Z') || ('0' <= c && c <= '9') || c == '-' || c == '.' || c == '_'
}

/// Whether a requested target triple is safe to print inside the IR: 1 to 128 characters,
/// each an ASCII letter or digit, `-`, `.` or `_`.
pub open spec fn triple_safe(s: Seq<char>) -> bool {
    0 < s.len() <= 128 && forall|i: int| 0 <= i < s.len() ==> is_triple_char(#[trigger] s[i])
}

/// The triple printed in the IR for a requested triple (`None` when none was requested).
pub open spec fn host_triple_spec(requested: Option<Seq<char>>) -> Seq<char> {
    match requested {
        Some(s) => if triple_safe(s) { s } else { "unknown-unknown-unknown"@ },
        None => "unknown-unknown-unknown"@,
    }
}

/// Whether `s` may stand as the target triple: it cannot break the IR's quoting or inject
/// structure.
pub fn llvm_triple_is_safe(s: &str) -> (b: bool)
    ensures
        b == triple_safe(s@),
{
    let cs = chars_of(s);
    let n = cs.len();
    if n == 0 || n > 128 {
        return false;
    }
    let mut i: usize = 0;
    while i < n
        invariant
            i <= n == cs@.len(),
            cs@ == s@,
            forall|k: int| 0 <= k < i ==> is_triple_char(#[trigger] cs@[k]),
        decreases n - i,
    {
        let c = cs[i];
        if !(('a' <= c && c <= 'z') || ('A' <= c && c <= 'Z') || ('0' <= c && c <= '9') || c == '-' || c == '.' || c == '_') {
            return false;
        }
        i = i + 1;
    }
    true
}

/// The target triple for the IR: the requested one (the host's `LIR_LLVM_TRIPLE`) when it
/// is safe, else `unknown-unknown-unknown`.
pub fn host_triple(requested: Option<&str>) -> (r: String)
    ensures
        r@ == host_triple_spec(match requested { Some(s) => Some(s@), None => None }),
{
    match requested {
        Some(s) => {
            if llvm_triple_is_safe(s) {
                string_of(s)
            } else {
                string_of("unknown-unknown-unknown")
            }
        },
        None => string_of("unknown-unknown-unknown"),
    }
}

/// Module header: source comment, data layout, target triple, intrinsic declarations.
pub open spec fn prelude_text(triple: Seq<char>) -> Seq<char> {
    "; LIR v1 \u{2014} generated LLVM IR\ntarget datalayout = \"e-m:e-i64:64-f80:128-n8:16:32:64-S128\"\ntarget triple = \""@
        + triple
        + PRELUDE_DECLS@
}

/// Declarations that follow the target triple in every module.
pub const PRELUDE_DECLS: &'static str = "\"\n\ndeclare void @llvm.trap() cold noreturn nounwind\ndeclare { i32, i1 } @llvm.sadd.with.overflow.i32(i32, i32) nounwind readnone speculatable\ndeclare { i32, i1 } @llvm.ssub.with.overflow.i32(i32, i32) nounwind readnone speculatable\ndeclare { i32, i1 } @llvm.smul.with.overflow.i32(i32, i32) nounwind readnone speculatable\ndeclare { i64, i1 } @llvm.sadd.with.overflow.i64(i64, i64) nounwind readnone speculatable\ndeclare { i64, i1 } @llvm.ssub.with.overflow.i64(i64, i64) nounwind readnone speculatable\ndeclare { i64, i1 } @llvm.smul.with.overflow.i64(i64, i64) nounwind readnone speculatable\ndeclare { i8, i1 } @llvm.sadd.with.overflow.i8(i8, i8) nounwind readnone speculatable\ndeclare { i8, i1 } @llvm.ssub.with.overflow.i8(i8, i8) nounwind readnone speculatable\ndeclare { i8, i1 } @llvm.smul.with.overflow.i8(i8, i8) nounwind readnone speculatable\n\n";

/// Appends the module header for `triple`.
fn emit_prelude(out: &mut String, triple: &String)
    ensures
        final(out)@ == old(out)@ + prelude_text(triple@),
{
    let mut l = string_of("; LIR v1 \u{2014} generated LLVM IR\ntarget datalayout = \"e-m:e-i64:64-f80:128-n8:16:32:64-S128\"\ntarget triple = \"");
    crate::text::push_string(&mut l, triple);
    push_str(&mut l, PRELUDE_DECLS);
    crate::text::push_string(out, &l);
}

/// Rows `i..` of a constant array: `  <ty> <value>`, with a comma after all but the last.
pub open spec fn rows_text(vals: Seq<int>, ty: Seq<char>, i: int) -> Seq<char>
    decreases vals.len() - i,
{
    if 0 <= i < vals.len() {
        "  "@ + ty + " "@ + int_decimal(vals[i]) + (if i + 1 < vals.len() { ","@ } else { ""@ }) + "\n"@ + rows_text(vals, ty, i + 1)
    } else {
        Seq::empty()
    }
}

/// The constant array `@lir_data` holding `vals` of LLVM type `ty`.
pub open spec fn rodata_text(vals: Seq<int>, ty: Seq<char>, align: Seq<char>) -> Seq<char> {
    "@lir_data = private unnamed_addr constant ["@ + nat_decimal(vals.len()) + " x "@ + ty + "] [\n"@
        + rows_text(vals, ty, 0) + "], align "@ + align + "\n"@ + "\n"@
}

/// Appends the constant array for `vals` (given as `i64`s) of LLVM type `ty`.
fn emit_rodata(out: &mut String, vals: &Vec<i64>, ty: &str, align: &str)
    ensures
        final(out)@ == old(out)@ + rodata_text(vals@.map_values(|v: i64| v as int), ty@, align@),
{
    let ghost iv = vals@.map_values(|v: i64| v as int);
    let n = vals.len();
    let mut l = string_of("@lir_data = private unnamed_addr constant [");
    push_usize(&mut l, n);
    push_str(&mut l, " x ");
    push_str(&mut l, ty);
    push_str(&mut l, "] [\n");
    let ghost head = l@;
    let mut i: usize = 0;
    while i < n
        invariant
            i <= n == vals@.len(),
            iv == vals@.map_values(|v: i64| v as int),
            head + rows_text(iv, ty@, 0) == l@ + rows_text(iv, ty@, i as int),
        decreases n - i,
    {
        let ghost before = l@;
        push_str(&mut l, "  ");
        push_str(&mut l, ty);
        push_str(&mut l, " ");
        push_i64(&mut l, vals[i]);
        if i + 1 < n {
            push_str(&mut l, ",");
        } else {
            push_str(&mut l, "");
        }
        push_str(&mut l, "\n");
        proof {
            let item = "  "@ + ty@ + " "@ + int_decimal(iv[i as int]) + (if i + 1 < n { ","@ } else { ""@ }) + "\n"@;
            assert(l@ == before + item);
            vstd::seq_lib::lemma_concat_associative(before, item, rows_text(iv, ty@, i + 1));
        }
        i = i + 1;
    }
    proof {
        assert(l@ + rows_text(iv, ty@, n as int) =~= l@);
        assert(iv.len() == n);
    }
    push_str(&mut l, "], align ");
    push_str(&mut l, align);
    push_str(&mut l, "\n");
    push_str(&mut l, "\n");
    crate::text::push_string(out, &l);
}

/// Appends the constant array for `i32` elements.
fn emit_rodata_i32(out: &mut String, elems: &Vec<i32>)
    ensures
        final(out)@ == old(out)@ + rodata_text(elems@.map_values(|v: i32| v as int), "i32"@, "4"@),
{
    let mut w: Vec<i64> = Vec::new();
    let mut k: usize = 0;
    while k < elems.len()
        invariant
            k <= elems@.len(),
            w@.len() == k,
            forall|j: int| 0 <= j < k ==> #[trigger] w@[j] as int == elems@[j] as int,
        decreases elems@.len() - k,
    {
        w.push(elems[k] as i64);
        k = k + 1;
    }
    assert(w@.map_values(|v: i64| v as int) =~= elems@.map_values(|v: i32| v as int));
    emit_rodata(out, &w, "i32", "4");
}

/// Appends the constant array for `i64` elements.
fn emit_rodata_i64(out: &mut String, elems: &Vec<i64>)
    ensures
        final(out)@ == old(out)@ + rodata_text(elems@.map_values(|v: i64| v as int), "i64"@, "8"@),
{
    emit_rodata(out, elems, "i64", "8");
}

/// Appends the constant array for boolean elements as `i8` 0/1.
fn emit_rodata_i8(out: &mut String, elems: &Vec<u8>)
    ensures
        final(out)@ == old(out)@ + rodata_text(elems@.map_values(|v: u8| v as int), "i8"@, "1"@),
{
    let mut w: Vec<i64> = Vec::new();
    let mut k: usize = 0;
    while k < elems.len()
        invariant
            k <= elems@.len(),
            w@.len() == k,
            forall|j: int| 0 <= j < k ==> #[trigger] w@[j] as int == elems@[j] as int,
        decreases elems@.len() - k,
    {
        w.push(elems[k] as i64);
        k = k + 1;
    }
    assert(w@.map_values(|v: i64| v as int) =~= elems@.map_values(|v: u8| v as int));
    emit_rodata(out, &w, "i8", "1");
}

/// How many elements to skip and use from the caller's buffer.
pub open spec fn input_entry_text(drop: u32, take: Option<u32>) -> Seq<char> {
    let head = "entry:\n"@
        + "  %dropped = icmp ult i32 %in_len, "@ + nat_decimal(drop as nat) + "\n"@
        + "  %base = select i1 %dropped, i32 %in_len, i32 "@ + nat_decimal(drop as nat) + "\n"@
        + "  %avail = sub i32 %in_len, %base\n"@;
    match take {
        Some(tk) => head + "  %small = icmp ult i32 %avail, "@ + nat_decimal(tk as nat) + "\n"@
            + "  %count = select i1 %small, i32 %avail, i32 "@ + nat_decimal(tk as nat) + "\n"@,
        None => head + "  %count = add i32 %avail, 0\n"@,
    }
}

/// `@lir_main` over the caller's buffer.
pub open spec fn input_main_text(w: IntWidth, reduce: ReduceOp, drop: u32, take: Option<u32>, pre: Seq<PipelineOp>, post: Seq<PipelineOp>, scan: Option<(i64, ScanOp)>) -> Seq<char> {
    "define "@ + ret_ty_text(w, reduce) + " @lir_main("@ + ty_text(w) + "* nocapture readonly %in, i32 %in_len) local_unnamed_addr #0 {\n"@
        + input_entry_text(drop, take)
        + loop_core_text(w, reduce, LoopMode::Input, pre, post, scan)
        + "}\n\n"@
}

/// `@lir_main` over the constant array of `n` elements.
pub open spec fn array_main_text(w: IntWidth, reduce: ReduceOp, n: usize, pre: Seq<PipelineOp>, post: Seq<PipelineOp>, scan: Option<(i64, ScanOp)>) -> Seq<char> {
    "define "@ + ret_ty_text(w, reduce) + " @lir_main() local_unnamed_addr #0 {\n"@ + "entry:\n"@
        + loop_core_text(w, reduce, LoopMode::Array { n }, pre, post, scan)
        + "}\n\n"@
}

fn emit_input_main(
    out: &mut String,
    width: IntWidth,
    reduce: ReduceOp,
    drop: u32,
    take: Option<u32>,
    pre_scan: &Vec<PipelineOp>,
    post_scan: &Vec<PipelineOp>,
    scan: Option<(i64, ScanOp)>,
)
    ensures
        final(out)@ == old(out)@ + input_main_text(width, reduce, drop, take, pre_scan@, post_scan@, scan),
{
    let mut l = string_of("define ");
    push_str(&mut l, llvm_fn_ret_ty(width, reduce));
    push_str(&mut l, " @lir_main(");
    push_str(&mut l, width.llvm_ty());
    push_str(&mut l, "* nocapture readonly %in, i32 %in_len) local_unnamed_addr #0 {\n");
    let mut e = string_of("entry:\n");
    push_str(&mut e, "  %dropped = icmp ult i32 %in_len, ");
    push_u64(&mut e, drop as u64);
    push_str(&mut e, "\n");
    push_str(&mut e, "  %base = select i1 %dropped, i32 %in_len, i32 ");
    push_u64(&mut e, drop as u64);
    push_str(&mut e, "\n");
    push_str(&mut e, "  %avail = sub i32 %in_len, %base\n");
    match take {
        Some(tk) => {
            push_str(&mut e, "  %small = icmp ult i32 %avail, ");
            push_u64(&mut e, tk as u64);
            push_str(&mut e, "\n");
            push_str(&mut e, "  %count = select i1 %small, i32 %avail, i32 ");
            push_u64(&mut e, tk as u64);
            push_str(&mut e, "\n");
        },
        None => {
            push_str(&mut e, "  %count = add i32 %avail, 0\n");
        },
    }
    crate::text::push_string(&mut l, &e);
    emit_loop_core(&mut l, width, reduce, LoopMode::Input, pre_scan, post_scan, scan);
    push_str(&mut l, "}\n\n");
    crate::text::push_string(out, &l);
}

fn emit_array_main(
    out: &mut String,
    width: IntWidth,
    reduce: ReduceOp,
    n: usize,
    pre_scan: &Vec<PipelineOp>,
    post_scan: &Vec<PipelineOp>,
    scan: Option<(i64, ScanOp)>,
)
    ensures
        final(out)@ == old(out)@ + array_main_text(width, reduce, n, pre_scan@, post_scan@, scan),
{
    let mut l = string_of("define ");
    push_str(&mut l, llvm_fn_ret_ty(width, reduce));
    push_str(&mut l, " @lir_main() local_unnamed_addr #0 {\n");
    push_str(&mut l, "entry:\n");
    emit_loop_core(&mut l, width, reduce, LoopMode::Array { n }, pre_scan, post_scan, scan);
    push_str(&mut l, "}\n\n");
    crate::text::push_string(out, &l);
}

/// The functions of a module for a plan (after the header).
pub open spec fn plan_body_text(plan: PlanView) -> Seq<char> {
    match plan.kind {
        PlanKindView::Input { drop, take } => input_main_text(plan.width, plan.reduce, drop, take, plan.pre_scan, plan.post_scan, plan.scan),
        PlanKindView::ArrayI32 { elems } => rodata_text(elems.map_values(|v: i32| v as int), "i32"@, "4"@)
            + array_main_text(plan.width, plan.reduce, elems.len() as usize, plan.pre_scan, plan.post_scan, plan.scan),
        PlanKindView::ArrayI64 { elems } => rodata_text(elems.map_values(|v: i64| v as int), "i64"@, "8"@)
            + array_main_text(plan.width, plan.reduce, elems.len() as usize, plan.pre_scan, plan.post_scan, plan.scan),
        PlanKindView::ArrayI8 { elems } => rodata_text(elems.map_values(|v: u8| v as int), "i8"@, "1"@)
            + array_main_text(plan.width, plan.reduce, elems.len() as usize, plan.pre_scan, plan.post_scan, plan.scan),
    }
}

/// The whole module for a plan and a target triple.
pub open spec fn module_text(plan: PlanView, triple: Seq<char>) -> Seq<char> {
    prelude_text(triple) + plan_body_text(plan) + "\nattributes #0 = { nounwind }\n"@
}

/// LLVM IR for a program, with the target triple requested by the host (`None`: none).
pub fn emit_llvm_ir_for_host(p: &Program, requested_triple: Option<&str>) -> (r: Result<String, LirError>)
    ensures
        match (r, plan_spec(*p)) {
            (Ok(text), Ok(plan)) => text@ == module_text(plan, host_triple_spec(match requested_triple { Some(s) => Some(s@), None => None })),
            (Err(e), Err(x)) => e@ == x,
            _ => false,
        },
{
    let plan = compile_plan(p)?;
    let triple = host_triple(requested_triple);
    let mut out = String::new();
    emit_prelude(&mut out, &triple);
    assert(out@ =~= prelude_text(triple@));
    emit_plan_body(&mut out, &plan);
    push_str(&mut out, "\nattributes #0 = { nounwind }\n");
    Ok(out)
}

/// Appends the functions of the module for `plan`.
fn emit_plan_body(out: &mut String, plan: &Plan)
    ensures
        final(out)@ == old(out)@ + plan_body_text(plan@),
{
    match &plan.kind {
        PlanKind::Input { drop, take } => {
            emit_input_main(out, plan.width, plan.reduce, *drop, *take, &plan.pre_scan, &plan.post_scan, plan.scan);
        },
        PlanKind::ArrayI32 { elems } => {
            emit_rodata_i32(out, elems);
            emit_array_main(out, plan.width, plan.reduce, elems.len(), &plan.pre_scan, &plan.post_scan, plan.scan);
        },
        PlanKind::ArrayI64 { elems } => {
            emit_rodata_i64(out, elems);
            emit_array_main(out, plan.width, plan.reduce, elems.len(), &plan.pre_scan, &plan.post_scan, plan.scan);
        },
        PlanKind::ArrayI8 { elems } => {
            emit_rodata_i8(out, elems);
            emit_array_main(out, plan.width, plan.reduce, elems.len(), &plan.pre_scan, &plan.post_scan, plan.scan);
        },
    }
}

/// LLVM IR for a program, for the target triple `unknown-unknown-unknown`.
pub fn emit_llvm_ir(p: &Program) -> (r: Result<String, LirError>)
    ensures
        match (r, plan_spec(*p)) {
            (Ok(text), Ok(plan)) => text@ == module_text(plan, "unknown-unknown-unknown"@),
            (Err(e), Err(x)) => e@ == x,
            _ => false,
        },
{
    emit_llvm_ir_for_host(p, None)
}

} // verus!
