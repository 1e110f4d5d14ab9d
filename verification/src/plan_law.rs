//! The plan that code generation builds computes what the interpreter computes.
//!
//! A [`PlanView`] is read here as a program of its own: cut the source stream by the folded
//! `take`/`drop` prefix, run the filter and map steps before the scan, the scan, the steps
//! after it, then the reduce. The law below shows that this gives the outcome of
//! `run_program`, with each diagnostic compared by its code (a plan keeps no stage spans).

use vstd::prelude::*;
use crate::ast::{ElemTy, Program, ReduceOp, ScanOp, Stage};
use crate::error::{ErrorView, Span};
use crate::interp::{
    filter_from, fold_from, map_from, reduce_spec, run_program_spec, run_stage_spec, run_stages_from, scan_from,
    scan_init_spec, source_spec, stream_ty, Flow, Val,
};
use crate::laws::{drops_in, law_prefix_folding_agrees};
use crate::llvm_ir::{drop_take, plan_spec, IntWidth, post_scan_from, pre_scan_from, prefix_from, PipelineOp, PlanKindView, PlanView};

verus! {

/// An outcome with its diagnostic reduced to the code.
pub open spec fn by_code<T>(r: Result<T, ErrorView>) -> Result<T, Seq<char>> {
    match r {
        Ok(x) => Ok(x),
        Err(e) => Err(e.code),
    }
}

/// The span that plan steps report (a plan keeps no spans).
pub open spec fn no_span() -> Span {
    Span { start: 0, end: 0 }
}

/// One filter or map step of a plan on a stream.
pub open spec fn op_step(op: PipelineOp, ty: ElemTy, vs: Seq<Val>) -> Result<Seq<Val>, ErrorView> {
    match op {
        PipelineOp::Filter(p) => filter_from(p, vs, ty, no_span(), 0, 0),
        PipelineOp::MapEach(e) => map_from(e, vs, no_span(), 0, 0),
    }
}

/// The steps `ops[k..]` of a plan, one after the other.
pub open spec fn ops_from(ops: Seq<PipelineOp>, ty: ElemTy, vs: Seq<Val>, k: int) -> Result<Seq<Val>, ErrorView>
    decreases ops.len() - k,
{
    if k < 0 || k >= ops.len() {
        Ok(vs)
    } else {
        match op_step(ops[k], ty, vs) {
            Err(e) => Err(e),
            Ok(v2) => ops_from(ops, ty, v2, k + 1),
        }
    }
}

/// The scan of a plan, if it has one: the initial value, then the running values.
pub open spec fn scan_step(scan: Option<(i64, ScanOp)>, ty: ElemTy, vs: Seq<Val>) -> Result<Seq<Val>, ErrorView> {
    match scan {
        None => Ok(vs),
        Some((init, op)) => match scan_init_spec(init, ty, no_span(), 0) {
            Err(e) => Err(e),
            Ok(acc) => match scan_from(op, acc, vs, no_span(), 0, 0) {
                Ok(out) => Ok(seq![acc] + out),
                Err(e) => Err(e),
            },
        },
    }
}

/// The element type that a stream of LLVM width `w` carries.
pub open spec fn ty_of_width(w: IntWidth) -> ElemTy {
    match w {
        IntWidth::W8 => ElemTy::Bool,
        IntWidth::W32 => ElemTy::I32,
        IntWidth::W64 => ElemTy::I64,
    }
}

/// What a plan computes from the stream that its source gives after the folded prefix.
pub open spec fn plan_eval(plan: PlanView, vs: Seq<Val>) -> Result<Flow, Seq<char>> {
    let ty = ty_of_width(plan.width);
    by_code(
        match ops_from(plan.pre_scan, ty, vs, 0) {
            Err(e) => Err(e),
            Ok(v1) => match scan_step(plan.scan, ty, v1) {
                Err(e) => Err(e),
                Ok(v2) => match ops_from(plan.post_scan, ty, v2, 0) {
                    Err(e) => Err(e),
                    Ok(v3) => match reduce_spec(plan.reduce, v3, ty, no_span(), 0) {
                        Err(e) => Err(e),
                        Ok(v) => Ok(Flow::Scalar(v)),
                    },
                },
            },
        },
    )
}

/// `k` applied to a successful flow.
pub open spec fn then_run(r: Result<Seq<Val>, ErrorView>, ty: ElemTy, stages: Seq<Stage>, from: int) -> Result<Flow, ErrorView> {
    match r {
        Err(e) => Err(e),
        Ok(v) => run_stages_from(Flow::Stream(v), ty, stages, from),
    }
}

proof fn lemma_filter_codes(p: crate::ast::Predicate, vs: Seq<Val>, ty: crate::ast::ElemTy, s1: Span, i1: usize, s2: Span, i2: usize, i: int)
    ensures
        by_code(filter_from(p, vs, ty, s1, i1, i)) == by_code(filter_from(p, vs, ty, s2, i2, i)),
    decreases vs.len() - i,
{
    if 0 <= i < vs.len() {
        lemma_filter_codes(p, vs, ty, s1, i1, s2, i2, i + 1);
    }
}

proof fn lemma_map_codes(e: crate::ast::Expr, vs: Seq<Val>, s1: Span, i1: usize, s2: Span, i2: usize, i: int)
    ensures
        by_code(map_from(e, vs, s1, i1, i)) == by_code(map_from(e, vs, s2, i2, i)),
    decreases vs.len() - i,
{
    if 0 <= i < vs.len() {
        lemma_map_codes(e, vs, s1, i1, s2, i2, i + 1);
    }
}

proof fn lemma_scan_codes(op: ScanOp, acc: Val, vs: Seq<Val>, s1: Span, i1: usize, s2: Span, i2: usize, i: int)
    ensures
        by_code(scan_from(op, acc, vs, s1, i1, i)) == by_code(scan_from(op, acc, vs, s2, i2, i)),
    decreases vs.len() - i,
{
    if 0 <= i < vs.len() {
        if let Ok(a2) = crate::interp::arith_spec(op, acc, vs[i]) {
            lemma_scan_codes(op, a2, vs, s1, i1, s2, i2, i + 1);
        }
    }
}

proof fn lemma_fold_codes(op: ScanOp, acc: Val, vs: Seq<Val>, s1: Span, i1: usize, s2: Span, i2: usize, i: int)
    ensures
        by_code(fold_from(op, acc, vs, s1, i1, i)) == by_code(fold_from(op, acc, vs, s2, i2, i)),
    decreases vs.len() - i,
{
    if 0 <= i < vs.len() {
        if let Ok(a2) = crate::interp::arith_spec(op, acc, vs[i]) {
            lemma_fold_codes(op, a2, vs, s1, i1, s2, i2, i + 1);
        }
    }
}

proof fn lemma_reduce_codes(op: ReduceOp, vs: Seq<Val>, ty: ElemTy, s1: Span, i1: usize, s2: Span, i2: usize)
    ensures
        by_code(reduce_spec(op, vs, ty, s1, i1)) == by_code(reduce_spec(op, vs, ty, s2, i2)),
{
    if vs.len() > 0 {
        lemma_fold_codes(ScanOp::Add, vs[0], vs, s1, i1, s2, i2, 1);
        lemma_fold_codes(ScanOp::Mul, vs[0], vs, s1, i1, s2, i2, 1);
    }
}

/// Running `stages[a..]` is running `stages[a..b]`, then `stages[b..]`.
proof fn lemma_run_split(f: Flow, ty: ElemTy, stages: Seq<Stage>, a: int, b: int)
    requires
        0 <= a <= b <= stages.len(),
    ensures
        run_stages_from(f, ty, stages, a) == match run_stages_from(f, ty, stages.take(b), a) {
            Err(e) => Err(e),
            Ok(f2) => run_stages_from(f2, ty, stages, b),
        },
    decreases b - a,
{
    if a < b {
        assert(stages.take(b)[a] == stages[a]);
        if let Ok(f2) = run_stage_spec(f, ty, stages[a], a as usize) {
            lemma_run_split(f2, ty, stages, a + 1, b);
        }
    } else {
        assert(run_stages_from(f, ty, stages.take(b), a) == Ok::<Flow, ErrorView>(f));
    }
}

/// The filter and map steps before the scan agree with the stages they come from; the
/// run then goes on at the scan stage (or past the end of `tail`).
proof fn lemma_pre_steps(stages: Seq<Stage>, tail: Seq<Stage>, ti: int, w: crate::llvm_ir::IntWidth, base: int, ty: ElemTy, vs: Seq<Val>)
    requires
        0 <= base,
        0 <= ti <= tail.len(),
        base + tail.len() <= stages.len(),
        forall|k: int| 0 <= k < tail.len() ==> stages[base + k] == #[trigger] tail[k],
        pre_scan_from(tail, ti, w, base) is Ok,
    ensures
        ({
            let (ops, scan, ti2) = pre_scan_from(tail, ti, w, base)->Ok_0;
            let stop = if scan is Some { ti2 - 1 } else { ti2 };
            &&& ti <= stop <= tail.len()
            &&& (scan is Some ==> (stop < tail.len() && (tail[stop] matches Stage::Scan { init, op, .. } && scan == Some((init, op)))))
            &&& (scan is None ==> ti2 == tail.len())
            &&& by_code(run_stages_from(Flow::Stream(vs), ty, stages, base + ti)) == by_code(
                then_run(ops_from(ops, ty, vs, 0), ty, stages, base + stop),
            )
        }),
    decreases tail.len() - ti,
{
    if ti < tail.len() {
        let st = tail[ti];
        assert(stages[base + ti] == st);
        match st {
            Stage::Filter { pred, span } => {
                let (ops1, scan1, ti21) = pre_scan_from(tail, ti + 1, w, base)->Ok_0;
                lemma_filter_codes(pred, vs, ty, span, (base + ti) as usize, no_span(), 0, 0);
                match filter_from(pred, vs, ty, span, (base + ti) as usize, 0) {
                    Ok(v2) => lemma_pre_steps(stages, tail, ti + 1, w, base, ty, v2),
                    Err(_) => lemma_pre_steps(stages, tail, ti + 1, w, base, ty, vs),
                }
                let ops = seq![PipelineOp::Filter(pred)] + ops1;
                assert(ops[0] == PipelineOp::Filter(pred));
                assert(ops.subrange(1, ops.len() as int) =~= ops1);
                lemma_ops_shift(PipelineOp::Filter(pred), ops1, ty, vs);
            },
            Stage::MapEach { expr, span } => {
                let (ops1, scan1, ti21) = pre_scan_from(tail, ti + 1, w, base)->Ok_0;
                lemma_map_codes(expr, vs, span, (base + ti) as usize, no_span(), 0, 0);
                match map_from(expr, vs, span, (base + ti) as usize, 0) {
                    Ok(v2) => lemma_pre_steps(stages, tail, ti + 1, w, base, ty, v2),
                    Err(_) => lemma_pre_steps(stages, tail, ti + 1, w, base, ty, vs),
                }
                lemma_ops_shift(PipelineOp::MapEach(expr), ops1, ty, vs);
            },
            Stage::Id { .. } => {
                lemma_pre_steps(stages, tail, ti + 1, w, base, ty, vs);
            },
            _ => {},
        }
    }
}

/// The steps `seq![op] + ops` are `op`, then `ops`.
proof fn lemma_ops_shift(op: PipelineOp, ops: Seq<PipelineOp>, ty: ElemTy, vs: Seq<Val>)
    ensures
        ops_from(seq![op] + ops, ty, vs, 0) == match op_step(op, ty, vs) {
            Err(e) => Err(e),
            Ok(v2) => ops_from(ops, ty, v2, 0),
        },
{
    assert((seq![op] + ops)[0] == op);
    if let Ok(v2) = op_step(op, ty, vs) {
        lemma_ops_tail(op, ops, ty, v2, 0);
    }
}

proof fn lemma_ops_tail(op: PipelineOp, ops: Seq<PipelineOp>, ty: ElemTy, vs: Seq<Val>, k: int)
    requires
        0 <= k <= ops.len(),
    ensures
        ops_from(seq![op] + ops, ty, vs, k + 1) == ops_from(ops, ty, vs, k),
    decreases ops.len() - k,
{
    if k < ops.len() {
        assert((seq![op] + ops)[k + 1] == ops[k]);
        if let Ok(v2) = op_step(ops[k], ty, vs) {
            lemma_ops_tail(op, ops, ty, v2, k + 1);
        }
    }
}

/// The filter and map steps after the scan agree with the stages they come from; the run
/// then goes on past the end of `tail`.
proof fn lemma_post_steps(stages: Seq<Stage>, tail: Seq<Stage>, ti: int, base: int, ty: ElemTy, vs: Seq<Val>)
    requires
        0 <= base,
        0 <= ti <= tail.len(),
        base + tail.len() <= stages.len(),
        forall|k: int| 0 <= k < tail.len() ==> stages[base + k] == #[trigger] tail[k],
        post_scan_from(tail, ti) is Ok,
    ensures
        by_code(run_stages_from(Flow::Stream(vs), ty, stages, base + ti)) == by_code(
            then_run(ops_from(post_scan_from(tail, ti)->Ok_0, ty, vs, 0), ty, stages, base + tail.len()),
        ),
    decreases tail.len() - ti,
{
    if ti < tail.len() {
        let st = tail[ti];
        assert(stages[base + ti] == st);
        match st {
            Stage::Filter { pred, span } => {
                let ops1 = post_scan_from(tail, ti + 1)->Ok_0;
                lemma_filter_codes(pred, vs, ty, span, (base + ti) as usize, no_span(), 0, 0);
                if let Ok(v2) = filter_from(pred, vs, ty, span, (base + ti) as usize, 0) {
                    lemma_post_steps(stages, tail, ti + 1, base, ty, v2);
                }
                lemma_ops_shift(PipelineOp::Filter(pred), ops1, ty, vs);
            },
            Stage::MapEach { expr, span } => {
                let ops1 = post_scan_from(tail, ti + 1)->Ok_0;
                lemma_map_codes(expr, vs, span, (base + ti) as usize, no_span(), 0, 0);
                if let Ok(v2) = map_from(expr, vs, span, (base + ti) as usize, 0) {
                    lemma_post_steps(stages, tail, ti + 1, base, ty, v2);
                }
                lemma_ops_shift(PipelineOp::MapEach(expr), ops1, ty, vs);
            },
            Stage::Id { .. } => {
                lemma_post_steps(stages, tail, ti + 1, base, ty, vs);
            },
            _ => {},
        }
    } else {
        assert(ops_from(post_scan_from(tail, ti)->Ok_0, ty, vs, 0) == Ok::<Seq<Val>, ErrorView>(vs));
    }
}

/// From the end of the folded prefix on, the stages of a planned program compute what the
/// plan computes.
proof fn lemma_after_prefix(p: Program, ty: ElemTy, cut: Seq<Val>)
    requires
        plan_spec(p) is Ok,
        ty == ty_of_width(plan_spec(p)->Ok_0.width),
    ensures
        by_code(run_stages_from(Flow::Stream(cut), ty, p.stages@, prefix_from(p.stages@.drop_last(), 0, 0, None).2))
            == plan_eval(plan_spec(p)->Ok_0, cut),
{
    let plan = plan_spec(p)->Ok_0;
    let stages = p.stages@;
    let mid = stages.drop_last();
    let (d, t, pe) = prefix_from(mid, 0, 0, None);
    let sty = crate::types::source_ty_spec(p.source)->Ok_0;
    let w = crate::llvm_ir::width_of(sty);
    let tail = mid.subrange(pe, mid.len() as int);
    crate::laws::lemma_prefix_end(mid, 0, 0, None);
    assert forall|k: int| 0 <= k < tail.len() implies stages[pe + k] == #[trigger] tail[k] by {
        assert(tail[k] == mid[pe + k]);
    }
    let (pre, scan, ti2) = pre_scan_from(tail, 0, w, pe)->Ok_0;
    let post = post_scan_from(tail, ti2)->Ok_0;
    assert(plan.pre_scan == pre && plan.scan == scan && plan.post_scan == post);
    lemma_pre_steps(stages, tail, 0, w, pe, ty, cut);
    let stop = if scan is Some { ti2 - 1 } else { ti2 };
    assert(pe + tail.len() == stages.len() - 1);
    if let Ok(v1) = ops_from(pre, ty, cut, 0) {
        match scan {
            None => {
                assert(post == Seq::<PipelineOp>::empty());
                assert(ops_from(post, ty, v1, 0) == Ok::<Seq<Val>, ErrorView>(v1));
                lemma_reduce_at(p, ty, v1);
            },
            Some((init, op)) => {
                lemma_scan_stage(p, ty, tail, stop, v1);
                let span = crate::ast::stage_span_of(tail[stop]);
                let si = (pe + stop) as usize;
                if let Ok(acc) = scan_init_spec(init, ty, span, si) {
                    if let Ok(out) = scan_from(op, acc, v1, span, si, 0) {
                        let v2 = seq![acc] + out;
                        lemma_post_steps(stages, tail, ti2, pe, ty, v2);
                        if let Ok(v3) = ops_from(post, ty, v2, 0) {
                            lemma_reduce_at(p, ty, v3);
                        }
                    }
                }
            },
        }
    }
}

/// The scan stage of a planned program, run on `v1`, then the stages after it.
proof fn lemma_scan_stage(p: Program, ty: ElemTy, tail: Seq<Stage>, stop: int, v1: Seq<Val>)
    requires
        0 <= stop < tail.len(),
        prefix_from(p.stages@.drop_last(), 0, 0, None).2 + tail.len() <= p.stages@.len(),
        forall|k: int| 0 <= k < tail.len() ==> p.stages@[prefix_from(p.stages@.drop_last(), 0, 0, None).2 + k] == #[trigger] tail[k],
        tail[stop] is Scan,
    ensures
        ({
            let pe = prefix_from(p.stages@.drop_last(), 0, 0, None).2;
            let span = crate::ast::stage_span_of(tail[stop]);
            let si = (pe + stop) as usize;
            let init = tail[stop]->Scan_init;
            let op = tail[stop]->Scan_op;
            &&& by_code(scan_init_spec(init, ty, span, si)) == by_code(scan_init_spec(init, ty, no_span(), 0))
            &&& run_stages_from(Flow::Stream(v1), ty, p.stages@, pe + stop) == match scan_init_spec(init, ty, span, si) {
                Err(e) => Err(e),
                Ok(acc) => match scan_from(op, acc, v1, span, si, 0) {
                    Ok(out) => run_stages_from(Flow::Stream(seq![acc] + out), ty, p.stages@, pe + stop + 1),
                    Err(e) => Err(e),
                },
            }
            &&& forall|acc: Val| by_code(#[trigger] scan_from(op, acc, v1, span, si, 0)) == by_code(scan_from(op, acc, v1, no_span(), 0, 0))
        }),
{
    let pe = prefix_from(p.stages@.drop_last(), 0, 0, None).2;
    let span = crate::ast::stage_span_of(tail[stop]);
    let si = (pe + stop) as usize;
    let init = tail[stop]->Scan_init;
    let op = tail[stop]->Scan_op;
    crate::laws::lemma_prefix_end(p.stages@.drop_last(), 0, 0, None);
    assert(p.stages@[pe + stop] == tail[stop]);
    assert(0 <= pe + stop < p.stages@.len());
    assert(run_stages_from(Flow::Stream(v1), ty, p.stages@, pe + stop) == match run_stage_spec(Flow::Stream(v1), ty, tail[stop], si) {
        Ok(f2) => run_stages_from(f2, ty, p.stages@, pe + stop + 1),
        Err(e) => Err(e),
    });
    assert forall|acc: Val| by_code(#[trigger] scan_from(op, acc, v1, span, si, 0)) == by_code(scan_from(op, acc, v1, no_span(), 0, 0)) by {
        lemma_scan_codes(op, acc, v1, span, si, no_span(), 0, 0);
    }
}

/// The plan that code generation builds for a program computes, from the source stream cut
/// by the folded `take`/`drop` prefix, what the interpreter computes for the whole program:
/// the same value, or a diagnostic with the same code. A plan that reads its input cuts it
/// with the folded counts. (Drop counts that add up beyond `u32` are a machine limit.)
pub proof fn law_plan_agrees_with_interpreter(p: Program, input: Seq<Val>)
    requires
        plan_spec(p) is Ok,
        drops_in(p.stages@.drop_last(), 0, prefix_from(p.stages@.drop_last(), 0, 0, None).2) <= u32::MAX,
    ensures
        ({
            let plan = plan_spec(p)->Ok_0;
            let (d, t, pe) = prefix_from(p.stages@.drop_last(), 0, 0, None);
            &&& (plan.kind is Input ==> plan.kind == PlanKindView::Input { drop: d, take: t })
            &&& (source_spec(p.source, input) matches Ok(vs) ==> by_code(run_program_spec(p, input))
                == plan_eval(plan, drop_take(vs, d, t)))
        }),
{
    let stages = p.stages@;
    let mid = stages.drop_last();
    let (d, t, pe) = prefix_from(mid, 0, 0, None);
    crate::laws::lemma_prefix_end(mid, 0, 0, None);
    if let Ok(vs) = source_spec(p.source, input) {
        let ty = crate::interp::source_elem_ty(p.source, vs);
        law_prefix_folding_agrees(mid, vs, ty);
        assert(mid.take(pe) =~= stages.take(pe));
        lemma_run_split(Flow::Stream(vs), ty, stages, 0, pe);
        lemma_after_prefix(p, ty, drop_take(vs, d, t));
    }
}

/// The last stage of a planned program is its reduce: running it from there gives the
/// reduce's value, and its diagnostics carry the codes of the plan's reduce.
proof fn lemma_reduce_at(p: Program, ty: ElemTy, v: Seq<Val>)
    requires
        plan_spec(p) is Ok,
    ensures
        by_code(run_stages_from(Flow::Stream(v), ty, p.stages@, p.stages@.len() - 1)) == by_code(
            match reduce_spec(plan_spec(p)->Ok_0.reduce, v, ty, no_span(), 0) {
                Err(e) => Err(e),
                Ok(x) => Ok(Flow::Scalar(x)),
            },
        ),
{
    let stages = p.stages@;
    let n = stages.len();
    let st = stages[n - 1];
    assert(st == stages.last());
    if let Stage::Reduce { op, span } = st {
        lemma_reduce_codes(op, v, ty, span, (n - 1) as usize, no_span(), 0);
        if let Ok(x) = reduce_spec(op, v, ty, span, (n - 1) as usize) {
            assert(run_stages_from(Flow::Scalar(x), ty, stages, n as int) == Ok::<Flow, ErrorView>(Flow::Scalar(x)));
        }
    }
}

} // verus!
