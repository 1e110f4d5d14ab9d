//! Properties that hold of every program and every stream, stated over the specifications
//! that the library's functions are verified against.

use vstd::prelude::*;
use crate::ast::{Expr, Predicate, ScanOp, Stage};
use crate::error::{ErrorView, Span};
use crate::ast::ElemTy;
use crate::interp::{filter_from, map_from, run_stage_spec, run_stages_from, scan_from, source_spec, Flow, Val};
use crate::llvm_ir::{drop_take, i32_of, lit_i32, lit_i64, lit_u8, plan_spec, prefix_from, take_after_drop, PlanKindView};
use crate::interp::{lit_has_i64, lit_vals};
use crate::types::is_bool_elem;
use crate::ast::LitElem;
use crate::ast::{Program, Source};

verus! {

/// `filter` keeps a subsequence: never more elements, and each kept element comes from the
/// input, in order.
proof fn lemma_filter_from(p: Predicate, vs: Seq<Val>, ty: ElemTy, span: Span, si: usize, i: int)
    requires
        0 <= i <= vs.len(),
    ensures
        filter_from(p, vs, ty, span, si, i) matches Ok(out) ==> out.len() <= vs.len() - i
            && forall|k: int| 0 <= k < out.len() ==> exists|j: int| i <= j < vs.len() && #[trigger] out[k] == vs[j],
    decreases vs.len() - i,
{
    if i < vs.len() {
        lemma_filter_from(p, vs, ty, span, si, i + 1);
        if let Ok(out) = filter_from(p, vs, ty, span, si, i) {
            if let Ok(rest) = filter_from(p, vs, ty, span, si, i + 1) {
                assert forall|k: int| 0 <= k < out.len() implies exists|j: int| i <= j < vs.len() && #[trigger] out[k] == vs[j] by {
                    if out.len() > rest.len() {
                        if k == 0 {
                            assert(out[0] == vs[i]);
                        } else {
                            assert(out[k] == rest[k - 1]);
                        }
                    } else {
                        assert(out[k] == rest[k]);
                    }
                }
            }
        }
    }
}

/// `map` keeps the length.
proof fn lemma_map_from(e: Expr, vs: Seq<Val>, span: Span, si: usize, i: int)
    requires
        0 <= i <= vs.len(),
    ensures
        map_from(e, vs, span, si, i) matches Ok(out) ==> out.len() == vs.len() - i,
    decreases vs.len() - i,
{
    if i < vs.len() {
        lemma_map_from(e, vs, span, si, i + 1);
    }
}

/// The running accumulations of a `scan` are one per element.
proof fn lemma_scan_from(op: ScanOp, acc: Val, vs: Seq<Val>, span: Span, si: usize, i: int)
    requires
        0 <= i <= vs.len(),
    ensures
        scan_from(op, acc, vs, span, si, i) matches Ok(out) ==> out.len() == vs.len() - i,
    decreases vs.len() - i,
{
    if i < vs.len() {
        if let Ok(a2) = crate::interp::arith_spec(op, acc, vs[i]) {
            lemma_scan_from(op, a2, vs, span, si, i + 1);
        }
    }
}

/// What each stage does to the length of a stream: `filter` keeps a subsequence, `map`
/// keeps the length, `scan` adds its initial value in front of one accumulation per
/// element, `take n` keeps the first `min(n, len)` elements, `drop n` removes them, `id`
/// changes nothing, and `reduce` leaves a single value.
pub proof fn law_stage_shapes(vs: Seq<Val>, ty: ElemTy, st: Stage, si: usize)
    ensures
        run_stage_spec(Flow::Stream(vs), ty, st, si) matches Ok(f) ==> match st {
            Stage::Filter { .. } => f matches Flow::Stream(out) && out.len() <= vs.len()
                && forall|k: int| 0 <= k < out.len() ==> exists|j: int| 0 <= j < vs.len() && #[trigger] out[k] == vs[j],
            Stage::MapEach { .. } => f matches Flow::Stream(out) && out.len() == vs.len(),
            Stage::Scan { .. } => f matches Flow::Stream(out) && out.len() == vs.len() + 1,
            Stage::Take { n, .. } => f == Flow::Stream(if (n as int) < vs.len() { vs.take(n as int) } else { vs }),
            Stage::Drop { n, .. } => f == Flow::Stream(if (n as int) > vs.len() { Seq::<Val>::empty() } else { vs.skip(n as int) }),
            Stage::Id { .. } => f == Flow::Stream(vs),
            Stage::Reduce { .. } => f is Scalar,
        },
{
    let span = crate::ast::stage_span_of(st);
    match st {
        Stage::Filter { pred, .. } => {
            lemma_filter_from(pred, vs, ty, span, si, 0);
        },
        Stage::MapEach { expr, .. } => {
            lemma_map_from(expr, vs, span, si, 0);
        },
        Stage::Scan { init, op, .. } => {
            if let Ok(acc) = crate::interp::scan_init_spec(init, ty, span, si) {
                lemma_scan_from(op, acc, vs, span, si, 0);
            }
        },
        _ => {},
    }
}


/// Sum of the counts of the `drop` stages among `mid[i..end]`.
pub open spec fn drops_in(mid: Seq<Stage>, i: int, end: int) -> int
    decreases end - i,
{
    if i < 0 || i >= end || i >= mid.len() {
        0
    } else {
        (if mid[i] is Drop { mid[i]->Drop_n as int } else { 0 }) + drops_in(mid, i + 1, end)
    }
}

/// Dropping `n` more elements from a cut stream is one cut with the folded counts.
proof fn lemma_drop_after_cut(vs: Seq<Val>, d: u32, t: Option<u32>, n: u32)
    requires
        d + n <= u32::MAX,
    ensures
        ({
            let cur = drop_take(vs, d, t);
            (if (n as int) > cur.len() { Seq::<Val>::empty() } else { cur.skip(n as int) })
                =~= drop_take(vs, (d + n) as u32, take_after_drop(t, n))
        }),
{
}

/// Keeping at most `n` elements of a cut stream is one cut with the folded counts.
proof fn lemma_take_after_cut(vs: Seq<Val>, d: u32, t: Option<u32>, n: u32)
    ensures
        ({
            let cur = drop_take(vs, d, t);
            (if (n as int) < cur.len() { cur.take(n as int) } else { cur })
                =~= drop_take(vs, d, Some(match t { Some(t0) => if t0 < n { t0 } else { n }, None => n }))
        }),
{
}

/// Running the `take` / `drop` / `id` stages of `mid` from `i` on a stream that the
/// counts `d` and `t` have already cut gives the stream that the folded counts cut.
proof fn lemma_prefix_runs(mid: Seq<Stage>, i: int, d: u32, t: Option<u32>, vs: Seq<Val>, ty: ElemTy)
    requires
        0 <= i <= mid.len(),
        d + drops_in(mid, i, prefix_from(mid, i, d, t).2) <= u32::MAX,
    ensures
        i <= prefix_from(mid, i, d, t).2 <= mid.len(),
        run_stages_from(Flow::Stream(drop_take(vs, d, t)), ty, mid.take(prefix_from(mid, i, d, t).2), i)
            == Ok::<Flow, ErrorView>(Flow::Stream(drop_take(vs, prefix_from(mid, i, d, t).0, prefix_from(mid, i, d, t).1))),
    decreases mid.len() - i,
{
    let end = prefix_from(mid, i, d, t).2;
    let cur = drop_take(vs, d, t);
    if i < mid.len() {
        let st = mid[i];
        lemma_prefix_end(mid, i, d, t);
        lemma_drops_in_nonneg(mid, i + 1, end);
        match st {
            Stage::Drop { n, .. } => {
                let t2 = take_after_drop(t, n);
                lemma_prefix_end(mid, i + 1, crate::llvm_ir::sat_add_u32(d, n), t2);
                assert(drops_in(mid, i, end) == n + drops_in(mid, i + 1, end));
                assert(sat_add_ok(d, n));
                let d2 = (d + n) as u32;
                lemma_prefix_runs(mid, i + 1, d2, t2, vs, ty);
                assert(mid.take(end)[i] == st);
                lemma_drop_after_cut(vs, d, t, n);
            },
            Stage::Take { n, .. } => {
                let t2 = Some(match t { Some(t0) => if t0 < n { t0 } else { n }, None => n });
                lemma_prefix_runs(mid, i + 1, d, t2, vs, ty);
                assert(mid.take(end)[i] == st);
                lemma_take_after_cut(vs, d, t, n);
            },
            Stage::Id { .. } => {
                lemma_prefix_runs(mid, i + 1, d, t, vs, ty);
                assert(mid.take(end)[i] == st);
            },
            _ => {},
        }
    }
}

spec fn sat_add_ok(a: u32, b: u32) -> bool {
    crate::llvm_ir::sat_add_u32(a, b) == a + b
}

pub proof fn lemma_prefix_end(mid: Seq<Stage>, i: int, d: u32, t: Option<u32>)
    requires
        0 <= i <= mid.len(),
    ensures
        i <= prefix_from(mid, i, d, t).2 <= mid.len(),
    decreases mid.len() - i,
{
    if i < mid.len() {
        match mid[i] {
            Stage::Drop { n, .. } => lemma_prefix_end(mid, i + 1, crate::llvm_ir::sat_add_u32(d, n), take_after_drop(t, n)),
            Stage::Take { n, .. } => lemma_prefix_end(mid, i + 1, d, Some(match t { Some(t0) => if t0 < n { t0 } else { n }, None => n })),
            Stage::Id { .. } => lemma_prefix_end(mid, i + 1, d, t),
            _ => {},
        }
    }
}

proof fn lemma_drops_in_nonneg(mid: Seq<Stage>, i: int, end: int)
    ensures
        drops_in(mid, i, end) >= 0,
    decreases end - i,
{
    if !(i < 0 || i >= end || i >= mid.len()) {
        lemma_drops_in_nonneg(mid, i + 1, end);
    }
}

/// Folding the leading `take` / `drop` / `id` stages into one drop count and one take
/// limit, as code generation does, cuts every stream as running those stages does, as long
/// as the drop counts add up within `u32`.
pub proof fn law_prefix_folding_agrees(stages: Seq<Stage>, vs: Seq<Val>, ty: ElemTy)
    requires
        drops_in(stages, 0, prefix_from(stages, 0, 0, None).2) <= u32::MAX,
    ensures
        run_stages_from(Flow::Stream(vs), ty, stages.take(prefix_from(stages, 0, 0, None).2), 0)
            == Ok::<Flow, ErrorView>(Flow::Stream(drop_take(vs, prefix_from(stages, 0, 0, None).0, prefix_from(stages, 0, 0, None).1))),
{
    assert(drop_take(vs, 0, None) =~= vs);
    lemma_prefix_runs(stages, 0, 0, None, vs, ty);
}

/// The constant array that code generation builds for a `range` source holds the values
/// of the stream that the interpreter has after the leading `take` / `drop` / `id` stages
/// (under the conditions of `law_prefix_folding_agrees`).
pub proof fn law_range_array_is_interpreted_prefix(p: Program, input: Seq<Val>, ty: ElemTy)
    requires
        p.source is Range,
        p.stages@.len() > 0,
        drops_in(p.stages@.drop_last(), 0, prefix_from(p.stages@.drop_last(), 0, 0, None).2) <= u32::MAX,
    ensures
        plan_spec(p) matches Ok(plan) ==> (plan.kind matches PlanKindView::ArrayI32 { elems }
            && source_spec(p.source, input) matches Ok(vs)
            && run_stages_from(Flow::Stream(vs), ty, p.stages@.drop_last().take(prefix_from(p.stages@.drop_last(), 0, 0, None).2), 0)
                matches Ok(Flow::Stream(out))
            && elems == out.map_values(|x: Val| i32_of(x))),
{
    let mid = p.stages@.drop_last();
    let (d, t, pe) = prefix_from(mid, 0, 0, None);
    if let Ok(vs) = source_spec(p.source, input) {
        law_prefix_folding_agrees(mid, vs, ty);
        let out = drop_take(vs, d, t);
        assert(drop_take(vs.map_values(|x: Val| i32_of(x)), d, t) =~= out.map_values(|x: Val| i32_of(x)));
    }
}

/// `drop_take` commutes with mapping the elements.
proof fn lemma_drop_take_map<A, B>(s: Seq<A>, f: spec_fn(A) -> B, d: u32, t: Option<u32>)
    ensures
        drop_take(s.map_values(f), d, t) == drop_take(s, d, t).map_values(f),
{
    assert(drop_take(s.map_values(f), d, t) =~= drop_take(s, d, t).map_values(f));
}

/// The machine integer that stands for a stream value in generated code: the integer
/// itself, or 1 / 0 for `true` / `false`.
pub open spec fn machine_value(v: Val) -> int {
    match v {
        Val::I32(x) => x as int,
        Val::I64(x) => x as int,
        Val::Bool(b) => if b { 1 } else { 0 },
    }
}

/// The elements of a constant array as integers (empty for a plan that reads its input).
pub open spec fn array_values(k: PlanKindView) -> Seq<int> {
    match k {
        PlanKindView::ArrayI32 { elems } => elems.map_values(|x: i32| x as int),
        PlanKindView::ArrayI64 { elems } => elems.map_values(|x: i64| x as int),
        PlanKindView::ArrayI8 { elems } => elems.map_values(|x: u8| x as int),
        PlanKindView::Input { .. } => Seq::empty(),
    }
}

/// The constant array that code generation builds for a `lit` source holds, as machine
/// integers, the values of the stream that the interpreter has after the leading `take` /
/// `drop` / `id` stages (under the conditions of `law_prefix_folding_agrees`).
pub proof fn law_lit_array_is_interpreted_prefix(p: Program, input: Seq<Val>, ty: ElemTy)
    requires
        p.source is Lit,
        p.stages@.len() > 0,
        drops_in(p.stages@.drop_last(), 0, prefix_from(p.stages@.drop_last(), 0, 0, None).2) <= u32::MAX,
    ensures
        plan_spec(p) matches Ok(plan) ==> (source_spec(p.source, input) matches Ok(vs)
            && run_stages_from(Flow::Stream(vs), ty, p.stages@.drop_last().take(prefix_from(p.stages@.drop_last(), 0, 0, None).2), 0)
                matches Ok(Flow::Stream(out))
            && !(plan.kind is Input)
            && array_values(plan.kind) == out.map_values(|v: Val| machine_value(v))),
{
    let mid = p.stages@.drop_last();
    let (d, t, pe) = prefix_from(mid, 0, 0, None);
    if let Source::Lit { elems, .. } = p.source {
        let es = elems@;
        let vs = lit_vals(es);
        law_prefix_folding_agrees(mid, vs, ty);
        let out = drop_take(vs, d, t);
        lemma_drop_take_map(vs, |v: Val| machine_value(v), d, t);
        if let Ok(plan) = plan_spec(p) {
            match plan.kind {
                PlanKindView::ArrayI32 { elems: a } => {
                    let direct = es.map_values(|e: LitElem| lit_i32(e)).map_values(|x: i32| x as int);
                    assert forall|k: int| 0 <= k < es.len() implies direct[k] == vs.map_values(|v: Val| machine_value(v))[k] by {
                        assert(!is_bool_elem(es[k]));
                        assert(!(es[k] is I64));
                    }
                    assert(direct =~= vs.map_values(|v: Val| machine_value(v)));
                    lemma_drop_take_map(es.map_values(|e: LitElem| lit_i32(e)), |x: i32| x as int, d, t);
                },
                PlanKindView::ArrayI64 { elems: a } => {
                    let direct = es.map_values(|e: LitElem| lit_i64(e)).map_values(|x: i64| x as int);
                    assert forall|k: int| 0 <= k < es.len() implies direct[k] == vs.map_values(|v: Val| machine_value(v))[k] by {
                        assert(!is_bool_elem(es[k]));
                    }
                    assert(direct =~= vs.map_values(|v: Val| machine_value(v)));
                    lemma_drop_take_map(es.map_values(|e: LitElem| lit_i64(e)), |x: i64| x as int, d, t);
                },
                PlanKindView::ArrayI8 { elems: a } => {
                    let direct = es.map_values(|e: LitElem| lit_u8(e)).map_values(|x: u8| x as int);
                    assert forall|k: int| 0 <= k < es.len() implies direct[k] == vs.map_values(|v: Val| machine_value(v))[k] by {
                        assert(is_bool_elem(es[k]));
                    }
                    assert(direct =~= vs.map_values(|v: Val| machine_value(v)));
                    lemma_drop_take_map(es.map_values(|e: LitElem| lit_u8(e)), |x: u8| x as int, d, t);
                },
                PlanKindView::Input { .. } => {},
            }
        }
    }
}

} // verus!
