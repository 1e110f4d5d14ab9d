//! The text of the generated LLVM IR, function by function.
//!
//! Each emitter appends to the text built so far. The specifications follow the same
//! shape: an [`Emit`] state (text so far and the counter for fresh `t<n>` names) goes in,
//! the extended state (and, where there is one, the SSA name of the result) comes out.

use vstd::prelude::*;
use crate::ast::{CmpOp, CmpRhs, Expr, Predicate, ReduceOp, ScanOp};
use crate::llvm_ir::{IntWidth, PipelineOp};
use crate::text::{int_decimal, nat_decimal, push_i64, push_str, push_string, push_u64, push_usize, string_of};

verus! {

/// Text emitted so far and the next fresh-name counter.
pub struct Emit {
    pub text: Seq<char>,
    pub tmp: u32,
}

/// The counter after one fresh name (wrapping like a `u32` in release builds).
pub open spec fn next_tmp(t: u32) -> u32 {
    if t == u32::MAX { 0 } else { (t + 1) as u32 }
}

/// The fresh name for counter value `t`.
pub open spec fn tname(t: u32) -> Seq<char> {
    "t"@ + nat_decimal(t as nat)
}

/// A block label made from a fresh name.
pub open spec fn pl_label(t: u32) -> Seq<char> {
    "pl_"@ + tname(t)
}

/// LLVM type of one element.
pub open spec fn ty_text(w: IntWidth) -> Seq<char> {
    match w {
        IntWidth::W8 => "i8"@,
        IntWidth::W32 => "i32"@,
        IntWidth::W64 => "i64"@,
    }
}

/// Result type of the overflow intrinsics.
pub open spec fn pair_text(w: IntWidth) -> Seq<char> {
    match w {
        IntWidth::W8 => "{ i8, i1 }"@,
        IntWidth::W32 => "{ i32, i1 }"@,
        IntWidth::W64 => "{ i64, i1 }"@,
    }
}

/// Checked addition intrinsic.
pub open spec fn sadd_text(w: IntWidth) -> Seq<char> {
    match w {
        IntWidth::W8 => "llvm.sadd.with.overflow.i8"@,
        IntWidth::W32 => "llvm.sadd.with.overflow.i32"@,
        IntWidth::W64 => "llvm.sadd.with.overflow.i64"@,
    }
}

/// Checked subtraction intrinsic.
pub open spec fn ssub_text(w: IntWidth) -> Seq<char> {
    match w {
        IntWidth::W8 => "llvm.ssub.with.overflow.i8"@,
        IntWidth::W32 => "llvm.ssub.with.overflow.i32"@,
        IntWidth::W64 => "llvm.ssub.with.overflow.i64"@,
    }
}

/// Checked multiplication intrinsic.
pub open spec fn smul_text(w: IntWidth) -> Seq<char> {
    match w {
        IntWidth::W8 => "llvm.smul.with.overflow.i8"@,
        IntWidth::W32 => "llvm.smul.with.overflow.i32"@,
        IntWidth::W64 => "llvm.smul.with.overflow.i64"@,
    }
}

/// Alignment of one element in bytes.
pub open spec fn align_of_width(w: IntWidth) -> u32 {
    match w {
        IntWidth::W8 => 1,
        IntWidth::W32 => 4,
        IntWidth::W64 => 8,
    }
}

/// The most negative value, which overflows when divided by -1.
pub open spec fn int_min_text(w: IntWidth) -> Seq<char> {
    match w {
        IntWidth::W8 => "-128"@,
        IntWidth::W32 => "-2147483648"@,
        IntWidth::W64 => "-9223372036854775808"@,
    }
}

/// Return type of `@lir_main`: `i32` for `count`, the element type otherwise.
pub open spec fn ret_ty_text(w: IntWidth, reduce: ReduceOp) -> Seq<char> {
    match reduce {
        ReduceOp::Count => "i32"@,
        _ => ty_text(w),
    }
}

/// `s` with `t` appended.
pub open spec fn put(s: Emit, t: Seq<char>) -> Emit {
    Emit { text: s.text + t, tmp: s.tmp }
}

/// Checked binary operation through an overflow intrinsic; traps on overflow.
pub open spec fn checked_binop_spec(s: Emit, w: IntWidth, intr: Seq<char>, a: Seq<char>, b: Seq<char>) -> (Emit, Seq<char>) {
    let t = tname(s.tmp);
    let o = tname(next_tmp(s.tmp));
    let r = tname(next_tmp(next_tmp(s.tmp)));
    let l = tname(next_tmp(next_tmp(next_tmp(s.tmp))));
    let pair = pair_text(w);
    let et = ty_text(w);
    (
        Emit {
            text: s.text + "  %"@ + t + " = call "@ + pair + " @"@ + intr + "("@ + et + " "@ + a + ", "@ + et + " "@ + b + ")\n"@
                + "  %"@ + o + " = extractvalue "@ + pair + " %"@ + t + ", 1\n"@
                + "  br i1 %"@ + o + ", label %trap_ov, label %cb_"@ + l + "\n"@
                + "cb_"@ + l + ":\n"@
                + "  %"@ + r + " = extractvalue "@ + pair + " %"@ + t + ", 0\n"@,
            tmp: next_tmp(next_tmp(next_tmp(next_tmp(s.tmp)))),
        },
        "%"@ + r,
    )
}

/// Guarded signed division (`sdiv`, with `dv`) or remainder (`srem`, with `md`): traps on a
/// zero divisor and on the most negative value divided by -1.
pub open spec fn guarded_div_spec(s: Emit, w: IntWidth, a: Seq<char>, b: Seq<char>, is_rem: bool) -> (Emit, Seq<char>) {
    let et = ty_text(w);
    let z = tname(s.tmp);
    let t1 = next_tmp(s.tmp);
    let ok = tname(t1);
    let t2 = next_tmp(t1);
    let bad = tname(t2);
    let t3 = next_tmp(t2);
    let bad2 = tname(t3);
    let t4 = next_tmp(t3);
    let bad3 = tname(t4);
    let t5 = next_tmp(t4);
    let ok2 = tname(t5);
    let t6 = next_tmp(t5);
    let q = tname(t6);
    let p1 = if is_rem { "md_"@ } else { "dv_"@ };
    let p2 = if is_rem { "md2_"@ } else { "dv2_"@ };
    let opn = if is_rem { " = srem "@ } else { " = sdiv "@ };
    (
        Emit {
            text: s.text + "  %"@ + z + " = icmp eq "@ + et + " "@ + b + ", 0\n"@
                + "  br i1 %"@ + z + ", label %trap_div, label %"@ + p1 + ok + "\n"@
                + p1 + ok + ":\n"@
                + "  %"@ + bad + " = icmp eq "@ + et + " "@ + a + ", "@ + int_min_text(w) + "\n"@
                + "  %"@ + bad2 + " = icmp eq "@ + et + " "@ + b + ", -1\n"@
                + "  %"@ + bad3 + " = and i1 %"@ + bad + ", %"@ + bad2 + "\n"@
                + "  br i1 %"@ + bad3 + ", label %trap_ov, label %"@ + p2 + ok2 + "\n"@
                + p2 + ok2 + ":\n"@
                + "  %"@ + q + opn + et + " "@ + a + ", "@ + b + "\n"@,
            tmp: next_tmp(t6),
        },
        "%"@ + q,
    )
}

/// Whether `v` fits `i8`.
pub open spec fn fits_i8(v: int) -> bool {
    -128 <= v <= 127
}

/// The name bound to `.`: `dot` itself when it starts with `%`, else `%` in front of it.
pub open spec fn dot_reg(dot: Seq<char>) -> Seq<char> {
    if dot.len() > 0 && dot[0] == '%' { dot } else { "%"@ + dot }
}

/// Lowering of a `map` expression over the element named `dot`.
pub open spec fn map_expr_spec(s: Emit, w: IntWidth, e: Expr, dot: Seq<char>) -> (Emit, Seq<char>)
    decreases e,
{
    match e {
        Expr::Dot { .. } => (s, dot_reg(dot)),
        Expr::Lit { v, .. } => (
            s,
            match w {
                IntWidth::W8 => if !fits_i8(v as int) { "0"@ } else { int_decimal(v as int) },
                IntWidth::W32 => if !(-2147483648 <= v <= 2147483647) { "0"@ } else { int_decimal(v as int) },
                IntWidth::W64 => int_decimal(v as int),
            },
        ),
        Expr::Neg { inner, .. } => {
            let (s1, v) = map_expr_spec(s, w, *inner, dot);
            let t = tname(s1.tmp);
            let o = tname(next_tmp(s1.tmp));
            let lb = tname(next_tmp(next_tmp(s1.tmp)));
            let r = tname(next_tmp(next_tmp(next_tmp(s1.tmp))));
            let pair = pair_text(w);
            let et = ty_text(w);
            (
                Emit {
                    text: s1.text + "  %"@ + t + " = call "@ + pair + " @"@ + ssub_text(w) + "("@ + et + " 0, "@ + et + " "@ + v + ")\n"@
                        + "  %"@ + o + " = extractvalue "@ + pair + " %"@ + t + ", 1\n"@
                        + "  br i1 %"@ + o + ", label %trap_ov, label %neg_"@ + lb + "\n"@
                        + "neg_"@ + lb + ":\n"@
                        + "  %"@ + r + " = extractvalue "@ + pair + " %"@ + t + ", 0\n"@,
                    tmp: next_tmp(next_tmp(next_tmp(next_tmp(s1.tmp)))),
                },
                "%"@ + r,
            )
        },
        Expr::Add { left, right, .. } => {
            let (s1, a) = map_expr_spec(s, w, *left, dot);
            let (s2, b) = map_expr_spec(s1, w, *right, dot);
            checked_binop_spec(s2, w, sadd_text(w), a, b)
        },
        Expr::Sub { left, right, .. } => {
            let (s1, a) = map_expr_spec(s, w, *left, dot);
            let (s2, b) = map_expr_spec(s1, w, *right, dot);
            checked_binop_spec(s2, w, ssub_text(w), a, b)
        },
        Expr::Mul { left, right, .. } => {
            let (s1, a) = map_expr_spec(s, w, *left, dot);
            let (s2, b) = map_expr_spec(s1, w, *right, dot);
            checked_binop_spec(s2, w, smul_text(w), a, b)
        },
        Expr::Div { left, right, .. } => {
            let (s1, a) = map_expr_spec(s, w, *left, dot);
            let (s2, b) = map_expr_spec(s1, w, *right, dot);
            guarded_div_spec(s2, w, a, b, false)
        },
        Expr::Mod { left, right, .. } => {
            let (s1, a) = map_expr_spec(s, w, *left, dot);
            let (s2, b) = map_expr_spec(s1, w, *right, dot);
            guarded_div_spec(s2, w, a, b, true)
        },
    }
}

/// LLVM `icmp` predicate of a comparison.
pub open spec fn int_pred_text(op: CmpOp) -> Seq<char> {
    match op {
        CmpOp::Eq => "eq"@,
        CmpOp::Lt => "slt"@,
        CmpOp::Le => "sle"@,
        CmpOp::Gt => "sgt"@,
        CmpOp::Ge => "sge"@,
    }
}

/// An `i1` that is always false, for comparisons that can never hold on this stream.
pub open spec fn never_spec(s: Emit) -> (Emit, Seq<char>) {
    let t = tname(s.tmp);
    (Emit { text: s.text + "  %"@ + t + " = icmp eq i32 0, 1\n"@, tmp: next_tmp(s.tmp) }, "%"@ + t)
}

/// A leaf predicate (`even`, `odd`, comparison) on `x` as one `i1` value.
pub open spec fn pred_atom_spec(s: Emit, w: IntWidth, p: Predicate, x: Seq<char>) -> (Emit, Seq<char>) {
    let et = ty_text(w);
    match p {
        Predicate::Even { .. } => {
            let a = tname(s.tmp);
            let b = tname(next_tmp(s.tmp));
            (
                Emit {
                    text: s.text + "  %"@ + a + " = and "@ + et + " "@ + x + ", 1\n"@ + "  %"@ + b + " = icmp eq "@ + et + " %"@ + a + ", 0\n"@,
                    tmp: next_tmp(next_tmp(s.tmp)),
                },
                "%"@ + b,
            )
        },
        Predicate::Odd { .. } => {
            let a = tname(s.tmp);
            let b = tname(next_tmp(s.tmp));
            (
                Emit {
                    text: s.text + "  %"@ + a + " = and "@ + et + " "@ + x + ", 1\n"@ + "  %"@ + b + " = icmp ne "@ + et + " %"@ + a + ", 0\n"@,
                    tmp: next_tmp(next_tmp(s.tmp)),
                },
                "%"@ + b,
            )
        },
        Predicate::Cmp { op, rhs, .. } => match rhs {
            CmpRhs::Bool(want) => if w == IntWidth::W8 && op == CmpOp::Eq {
                let t = tname(s.tmp);
                (
                    Emit {
                        text: s.text + "  %"@ + t + " = icmp eq "@ + et + " "@ + x + ", "@ + (if want { "1"@ } else { "0"@ }) + "\n"@,
                        tmp: next_tmp(s.tmp),
                    },
                    "%"@ + t,
                )
            } else {
                never_spec(s)
            },
            CmpRhs::Int(v) => if w == IntWidth::W8 || (w == IntWidth::W32 && !(-2147483648 <= v <= 2147483647)) {
                never_spec(s)
            } else {
                let t = tname(s.tmp);
                (
                    Emit {
                        text: s.text + "  %"@ + t + " = icmp "@ + int_pred_text(op) + " "@ + et + " "@ + x + ", "@ + int_decimal(v as int) + "\n"@,
                        tmp: next_tmp(s.tmp),
                    },
                    "%"@ + t,
                )
            },
        },
        _ => (s, x),
    }
}

/// A filter predicate on `x` as branches to `ok` or `fail`; `&` and `or` short-circuit left
/// to right.
pub open spec fn pred_branch_spec(s: Emit, w: IntWidth, p: Predicate, x: Seq<char>, ok: Seq<char>, fail: Seq<char>) -> Emit
    decreases p,
{
    match p {
        Predicate::And { left, right, .. } => {
            let mid = pl_label(s.tmp);
            let s1 = pred_branch_spec(Emit { text: s.text, tmp: next_tmp(s.tmp) }, w, *left, x, mid, fail);
            pred_branch_spec(put(s1, mid + ":\n"@), w, *right, x, ok, fail)
        },
        Predicate::Or { left, right, .. } => {
            let mid = pl_label(s.tmp);
            let s1 = pred_branch_spec(Emit { text: s.text, tmp: next_tmp(s.tmp) }, w, *left, x, ok, mid);
            pred_branch_spec(put(s1, mid + ":\n"@), w, *right, x, ok, fail)
        },
        Predicate::Not { inner, .. } => pred_branch_spec(s, w, *inner, x, fail, ok),
        _ => {
            let (s1, reg) = pred_atom_spec(s, w, p, x);
            put(s1, "  br i1 "@ + reg + ", label %"@ + ok + ", label %"@ + fail + "\n"@)
        },
    }
}

/// Lowering of `ops[i..]` entered at block `lbl` with the element named `cur`: the state, the
/// name of the final element, and the blocks whose filter failed (`skips` so far in front).
pub open spec fn ops_spec(
    s: Emit,
    w: IntWidth,
    ops: Seq<PipelineOp>,
    i: int,
    lbl: Seq<char>,
    cur: Seq<char>,
    skips: Seq<Seq<char>>,
    fail: Seq<char>,
    succ: Seq<char>,
) -> (Emit, Seq<char>, Seq<Seq<char>>)
    decreases ops.len() - i,
{
    if 0 <= i < ops.len() {
        let s0 = put(s, lbl + ":\n"@);
        let last = i + 1 == ops.len();
        match ops[i] {
            PipelineOp::Filter(p) => {
                let ok = pl_label(s0.tmp);
                let s1 = pred_branch_spec(Emit { text: s0.text, tmp: next_tmp(s0.tmp) }, w, p, cur, ok, fail);
                if last {
                    (put(s1, ok + ":\n"@ + "  br label %"@ + succ + "\n"@), cur, skips.push(lbl))
                } else {
                    ops_spec(s1, w, ops, i + 1, ok, cur, skips.push(lbl), fail, succ)
                }
            },
            PipelineOp::MapEach(e) => {
                let (s1, v) = map_expr_spec(s0, w, e, cur);
                if last {
                    (put(s1, "  br label %"@ + succ + "\n"@), v, skips)
                } else {
                    let next = pl_label(s1.tmp);
                    ops_spec(
                        put(Emit { text: s1.text, tmp: next_tmp(s1.tmp) }, "  br label %"@ + next + "\n"@),
                        w,
                        ops,
                        i + 1,
                        next,
                        v,
                        skips,
                        fail,
                        succ,
                    )
                }
            },
        }
    } else {
        (s, cur, skips)
    }
}

/// Lowering of a list of filter/map operations entered at block `first`.
pub open spec fn pipeline_ops_spec(s: Emit, w: IntWidth, ops: Seq<PipelineOp>, start: Seq<char>, first: Seq<char>, fail: Seq<char>, succ: Seq<char>) -> (Emit, Seq<char>, Seq<Seq<char>>) {
    if ops.len() == 0 {
        (s, start, Seq::empty())
    } else {
        ops_spec(s, w, ops, 0, first, start, Seq::empty(), fail, succ)
    }
}

/// Checked intrinsic of a scan operator.
pub open spec fn scan_intr_text(w: IntWidth, op: ScanOp) -> Seq<char> {
    match op {
        ScanOp::Add => sadd_text(w),
        ScanOp::Sub => ssub_text(w),
        ScanOp::Mul => smul_text(w),
    }
}

/// Folds `fv` into `%acc`, leaving the new accumulator in `%acch`.
pub open spec fn reduce_block_text(w: IntWidth, reduce: ReduceOp, fv: Seq<char>) -> Seq<char> {
    let et = ty_text(w);
    let pair = pair_text(w);
    match reduce {
        ReduceOp::Sum => "  %t = call "@ + pair + " @"@ + sadd_text(w) + "("@ + et + " %acc, "@ + et + " "@ + fv + ")\n"@
            + "  %ov = extractvalue "@ + pair + " %t, 1\n"@
            + "  br i1 %ov, label %trap_ov, label %sum_ok\n"@
            + "sum_ok:\n"@
            + "  %acch = extractvalue "@ + pair + " %t, 0\n"@,
        ReduceOp::Prod => "  %t = call "@ + pair + " @"@ + smul_text(w) + "("@ + et + " %acc, "@ + et + " "@ + fv + ")\n"@
            + "  %ov = extractvalue "@ + pair + " %t, 1\n"@
            + "  br i1 %ov, label %trap_ov, label %prod_ok\n"@
            + "prod_ok:\n"@
            + "  %acch = extractvalue "@ + pair + " %t, 0\n"@,
        ReduceOp::Count => "  %t = call { i32, i1 } @llvm.sadd.with.overflow.i32(i32 %acc, i32 1)\n  %ov = extractvalue { i32, i1 } %t, 1\n  br i1 %ov, label %trap_ov, label %cnt_ok\ncnt_ok:\n  %acch = extractvalue { i32, i1 } %t, 0\n"@,
        ReduceOp::Min => "  %mm_le = icmp sle "@ + et + " %acc, "@ + fv + "\n"@
            + "  %mm_pick = select i1 %mm_le, "@ + et + " %acc, "@ + et + " "@ + fv + "\n"@
            + "  %acch = select i1 %seen, "@ + et + " %mm_pick, "@ + et + " "@ + fv + "\n"@,
        ReduceOp::Max => "  %mm_ge = icmp sge "@ + et + " %acc, "@ + fv + "\n"@
            + "  %mm_pick = select i1 %mm_ge, "@ + et + " %acc, "@ + et + " "@ + fv + "\n"@
            + "  %acch = select i1 %seen, "@ + et + " %mm_pick, "@ + et + " "@ + fv + "\n"@,
    }
}

/// The accumulator after a first element `m`, stored in `dst`.
pub open spec fn seed_text(w: IntWidth, reduce: ReduceOp, m: Seq<char>, dst: Seq<char>) -> Seq<char> {
    let acc_ty = ret_ty_text(w, reduce);
    match reduce {
        ReduceOp::Sum => "  "@ + dst + " = add nsw "@ + acc_ty + " 0, "@ + m + "\n"@,
        ReduceOp::Prod => "  "@ + dst + " = mul nsw "@ + acc_ty + " 1, "@ + m + "\n"@,
        ReduceOp::Count => "  "@ + dst + " = add nsw i32 0, 1\n"@,
        ReduceOp::Min | ReduceOp::Max => "  "@ + dst + " = add nsw "@ + acc_ty + " "@ + m + ", 0\n"@,
    }
}

/// The accumulator before any element, stored in `dst`.
pub open spec fn identity_text(w: IntWidth, reduce: ReduceOp, dst: Seq<char>) -> Seq<char> {
    let acc_ty = ret_ty_text(w, reduce);
    match reduce {
        ReduceOp::Sum | ReduceOp::Min | ReduceOp::Max => "  "@ + dst + " = add nsw "@ + acc_ty + " 0, 0\n"@,
        ReduceOp::Prod => "  "@ + dst + " = add nsw "@ + acc_ty + " 0, 1\n"@,
        ReduceOp::Count => "  "@ + dst + " = add nsw i32 0, 0\n"@,
    }
}

/// The scan's initial value as a literal of the element type.
pub open spec fn init_lit_text(w: IntWidth, init: i64) -> Seq<char> {
    match w {
        IntWidth::W8 => int_decimal((init as i8) as int),
        IntWidth::W32 => int_decimal((init as i32) as int),
        IntWidth::W64 => int_decimal(init as int),
    }
}

/// The block before the loop when there is a scan: it feeds the scan's initial value through
/// the operations after the scan and seeds the accumulator. Returns the block that enters
/// the loop.
pub open spec fn scan_pre_spec(s: Emit, w: IntWidth, reduce: ReduceOp, init: i64, post: Seq<PipelineOp>, minmax: bool) -> (Emit, Seq<char>) {
    let s0 = put(put(s, "scan_pre:\n"@), "  %scan_el0 = add nsw "@ + ty_text(w) + " "@ + init_lit_text(w, init) + ", 0\n"@);
    if post.len() == 0 {
        (put(put(s0, seed_text(w, reduce, "%scan_el0"@, "%acc_seed"@)), "  br label %loop\n"@), "scan_pre"@)
    } else {
        let first = pl_label(s0.tmp);
        let s1 = put(Emit { text: s0.text, tmp: next_tmp(s0.tmp) }, "  br label %"@ + first + "\n"@);
        let (s2, fin, _skips) = pipeline_ops_spec(s1, w, post, "%scan_el0"@, first, "scan_pre_fail"@, "scan_pre_ok"@);
        let s3 = put(put(put(s2, "scan_pre_fail:\n"@), identity_text(w, reduce, "%acc_fail"@)), "  br label %scan_pre_join\n"@);
        let s4 = put(put(put(s3, "scan_pre_ok:\n"@), seed_text(w, reduce, fin, "%acc_ok"@)), "  br label %scan_pre_join\n"@);
        let s5 = put(put(s4, "scan_pre_join:\n"@),
            "  %acc_seed = phi "@ + ret_ty_text(w, reduce) + " [ %acc_ok, %scan_pre_ok ], [ %acc_fail, %scan_pre_fail ]\n"@);
        let s6 = if minmax { put(s5, "  %seen_seed = phi i1 [ true, %scan_pre_ok ], [ false, %scan_pre_fail ]\n"@) } else { s5 };
        (put(s6, "  br label %loop\n"@), "scan_pre_join"@)
    }
}

/// Incoming values of a `phi` at `%inc`: `v` from each skipping block, then `last`.
pub open spec fn phi_parts(skips: Seq<Seq<char>>, v: Seq<char>, last: Seq<char>) -> Seq<char>
    decreases skips.len(),
{
    if skips.len() == 0 {
        last
    } else {
        "[ "@ + v + ", %"@ + skips[0] + " ], "@ + phi_parts(skips.drop_first(), v, last)
    }
}

/// Where the loop reads its elements.
pub enum LoopMode {
    /// The caller's buffer, from `%base`, `%count` elements.
    Input,
    /// The constant array `@lir_data` of `n` elements.
    Array { n: usize },
}

/// The views of a list of strings.
pub open spec fn strs(v: Seq<String>) -> Seq<Seq<char>> {
    v.map_values(|x: String| x@)
}

/// Initial accumulator when there is no scan.
pub open spec fn acc0_text(reduce: ReduceOp) -> Seq<char> {
    match reduce {
        ReduceOp::Prod => "1"@,
        _ => "0"@,
    }
}

/// Whether the reduce is `min` or `max`.
pub open spec fn is_minmax(reduce: ReduceOp) -> bool {
    reduce is Min || reduce is Max
}

/// Entry branch, loop header with its `phi`s, exit test and element load.
pub open spec fn loop_head_spec(w: IntWidth, reduce: ReduceOp, mode: LoopMode, post: Seq<PipelineOp>, scan: Option<(i64, ScanOp)>) -> Emit {
    let minmax = is_minmax(reduce);
    let et = ty_text(w);
    let acc_ty = ret_ty_text(w, reduce);
    let s0 = Emit { text: Seq::empty(), tmp: 0 };
    let (s1, lp) = match scan {
        Some((init, _)) => scan_pre_spec(put(s0, "  br label %scan_pre\n"@), w, reduce, init, post, minmax),
        None => (put(s0, "  br label %loop\n"@), "entry"@),
    };
    let s2 = put(s1, "loop:\n"@ + "  %i = phi i32 [ 0, %"@ + lp + " ], [ %i1, %inc ]\n"@);
    let s3 = match scan {
        Some((init, _)) => put(s2, "  %scan_acc = phi "@ + et + " [ "@ + init_lit_text(w, init) + ", %"@ + lp + " ], [ %scan_acc1, %inc ]\n"@),
        None => s2,
    };
    let s4 = if minmax {
        let se = if scan is Some { if post.len() == 0 { "true"@ } else { "%seen_seed"@ } } else { "false"@ };
        put(s3, "  %seen = phi i1 [ "@ + se + ", %"@ + lp + " ], [ %seen1, %inc ]\n"@)
    } else {
        s3
    };
    let s5 = if scan is Some {
        put(s4, "  %acc = phi "@ + acc_ty + " [ %acc_seed, %"@ + lp + " ], [ %acc1, %inc ]\n"@)
    } else {
        put(s4, "  %acc = phi "@ + acc_ty + " [ "@ + acc0_text(reduce) + ", %"@ + lp + " ], [ %acc1, %inc ]\n"@)
    };
    let count_op = match mode {
        LoopMode::Input => "%count"@,
        LoopMode::Array { n } => nat_decimal(n as nat),
    };
    let s6 = put(s5, "  %done = icmp uge i32 %i, "@ + count_op + "\n"@ + "  br i1 %done, label %exit, label %body\n"@ + "body:\n"@);
    let al = nat_decimal(align_of_width(w) as nat);
    match mode {
        LoopMode::Input => put(s6, "  %idx = add i32 %base, %i\n"@
            + "  %p = getelementptr inbounds "@ + et + ", "@ + et + "* %in, i32 %idx\n"@
            + "  %x = load "@ + et + ", "@ + et + "* %p, align "@ + al + "\n"@),
        LoopMode::Array { n } => put(s6, "  %p = getelementptr inbounds ["@ + nat_decimal(n as nat) + " x "@ + et + "], ["@ + nat_decimal(n as nat) + " x "@ + et
            + "]* @lir_data, i64 0, i32 %i\n"@
            + "  %x = load "@ + et + ", "@ + et + "* %p, align "@ + al + "\n"@),
    }
}

/// The operations before the scan, the scan step and the fold: the state, the scanned
/// element, and the blocks that skip the fold.
pub open spec fn loop_body_spec(s7: Emit, w: IntWidth, reduce: ReduceOp, pre: Seq<PipelineOp>, post: Seq<PipelineOp>, scan: Option<(i64, ScanOp)>) -> (Emit, Seq<char>, Seq<Seq<char>>) {
    let (s8, y, skips1) = if pre.len() == 0 {
        (put(s7, "  br label %scan_hit\n"@), "%x"@, Seq::<Seq<char>>::empty())
    } else {
        let first = pl_label(s7.tmp);
        pipeline_ops_spec(put(Emit { text: s7.text, tmp: next_tmp(s7.tmp) }, "  br label %"@ + first + "\n"@), w, pre, "%x"@, first, "inc"@, "scan_hit"@)
    };
    let s9 = put(s8, "scan_hit:\n"@);
    let (s10, sn) = match scan {
        Some((_, sop)) => checked_binop_spec(s9, w, scan_intr_text(w, sop), "%scan_acc"@, y),
        None => (s9, y),
    };
    if post.len() == 0 {
        (put(s10, reduce_block_text(w, reduce, sn)), sn, skips1)
    } else {
        let first = pl_label(s10.tmp);
        let (s11, fin, sk) = pipeline_ops_spec(put(Emit { text: s10.text, tmp: next_tmp(s10.tmp) }, "  br label %"@ + first + "\n"@), w, post, sn, first, "inc"@, "fold_tail"@);
        (put(put(s11, "fold_tail:\n"@), reduce_block_text(w, reduce, fin)), sn, skips1 + sk)
    }
}

/// Block whose edge into `%inc` carries the folded accumulator.
pub open spec fn fold_edge_text(reduce: ReduceOp, post_empty: bool) -> Seq<char> {
    match reduce {
        ReduceOp::Sum => "sum_ok"@,
        ReduceOp::Prod => "prod_ok"@,
        ReduceOp::Count => "cnt_ok"@,
        _ => if post_empty { "scan_hit"@ } else { "fold_tail"@ },
    }
}

/// The `%inc` block with its `phi`s, the exit block and the trap blocks.
pub open spec fn loop_tail_text(w: IntWidth, reduce: ReduceOp, post_empty: bool, has_scan: bool, sn: Seq<char>, skips: Seq<Seq<char>>) -> Seq<char> {
    let et = ty_text(w);
    let acc_ty = ret_ty_text(w, reduce);
    let fe = fold_edge_text(reduce, post_empty);
    let h0 = "  br label %inc\n"@ + "inc:\n"@;
    let h1 = if is_minmax(reduce) {
        h0 + "  %seen1 = phi i1 "@ + phi_parts(skips, "%seen"@, "[ true, %"@ + fe + " ]"@) + "\n"@
    } else {
        h0
    };
    let h2 = if has_scan {
        h1 + "  %scan_acc1 = phi "@ + et + " "@ + phi_parts(skips, "%scan_acc"@, "[ "@ + sn + ", %"@ + fe + " ]"@) + "\n"@
    } else {
        h1
    };
    let h3 = h2 + "  %acc1 = phi "@ + acc_ty + " "@ + phi_parts(skips, "%acc"@, "[ %acch, %"@ + fe + " ]"@) + "\n"@
        + "  %i1 = add nuw nsw i32 %i, 1\n"@ + "  br label %loop\n"@ + "exit:\n"@;
    let h4 = if is_minmax(reduce) {
        h3 + "  br i1 %seen, label %mm_ok, label %trap_mm_empty\n"@ + "mm_ok:\n"@ + "  ret "@ + acc_ty + " %acc\n"@
            + "trap_mm_empty:\n  call void @llvm.trap()\n  unreachable\n"@
    } else {
        h3 + "  ret "@ + acc_ty + " %acc\n"@
    };
    h4 + "trap_ov:\n  call void @llvm.trap()\n  unreachable\n"@ + "trap_div:\n  call void @llvm.trap()\n  unreachable\n"@
}

/// The whole loop of `@lir_main` (everything after `entry:`).
#[verifier::opaque]
pub open spec fn loop_core_text(w: IntWidth, reduce: ReduceOp, mode: LoopMode, pre: Seq<PipelineOp>, post: Seq<PipelineOp>, scan: Option<(i64, ScanOp)>) -> Seq<char> {
    let (s, sn, skips) = loop_body_spec(loop_head_spec(w, reduce, mode, post, scan), w, reduce, pre, post, scan);
    s.text + loop_tail_text(w, reduce, post.len() == 0, scan is Some, sn, skips)
}

impl IntWidth {
    /// LLVM type of one element.
    pub fn llvm_ty(self) -> (r: &'static str)
        ensures
            r@ == ty_text(self),
    {
        match self {
            IntWidth::W8 => "i8",
            IntWidth::W32 => "i32",
            IntWidth::W64 => "i64",
        }
    }

    /// Result type of the overflow intrinsics.
    pub fn pair_ty(self) -> (r: &'static str)
        ensures
            r@ == pair_text(self),
    {
        match self {
            IntWidth::W8 => "{ i8, i1 }",
            IntWidth::W32 => "{ i32, i1 }",
            IntWidth::W64 => "{ i64, i1 }",
        }
    }

    /// Checked addition intrinsic.
    pub fn sadd_intrinsic(self) -> (r: &'static str)
        ensures
            r@ == sadd_text(self),
    {
        match self {
            IntWidth::W8 => "llvm.sadd.with.overflow.i8",
            IntWidth::W32 => "llvm.sadd.with.overflow.i32",
            IntWidth::W64 => "llvm.sadd.with.overflow.i64",
        }
    }

    /// Checked subtraction intrinsic.
    pub fn ssub_intrinsic(self) -> (r: &'static str)
        ensures
            r@ == ssub_text(self),
    {
        match self {
            IntWidth::W8 => "llvm.ssub.with.overflow.i8",
            IntWidth::W32 => "llvm.ssub.with.overflow.i32",
            IntWidth::W64 => "llvm.ssub.with.overflow.i64",
        }
    }

    /// Checked multiplication intrinsic.
    pub fn smul_intrinsic(self) -> (r: &'static str)
        ensures
            r@ == smul_text(self),
    {
        match self {
            IntWidth::W8 => "llvm.smul.with.overflow.i8",
            IntWidth::W32 => "llvm.smul.with.overflow.i32",
            IntWidth::W64 => "llvm.smul.with.overflow.i64",
        }
    }

    /// Alignment of one element in bytes.
    pub fn align(self) -> (r: u32)
        ensures
            r == align_of_width(self),
    {
        match self {
            IntWidth::W8 => 1,
            IntWidth::W32 => 4,
            IntWidth::W64 => 8,
        }
    }

    /// The most negative value, as a literal.
    pub fn int_min_div(self) -> (r: &'static str)
        ensures
            r@ == int_min_text(self),
    {
        match self {
            IntWidth::W8 => "-128",
            IntWidth::W32 => "-2147483648",
            IntWidth::W64 => "-9223372036854775808",
        }
    }
}

/// Return type of `@lir_main`.
pub fn llvm_fn_ret_ty(width: IntWidth, reduce: ReduceOp) -> (r: &'static str)
    ensures
        r@ == ret_ty_text(width, reduce),
{
    match reduce {
        ReduceOp::Count => "i32",
        _ => width.llvm_ty(),
    }
}

/// Text being built for one function body, with its fresh-name counter.
pub struct IrCg {
    pub out: String,
    pub tmp: u32,
    pub w: IntWidth,
}

impl IrCg {
    /// The state of the emitter.
    pub open spec fn st(&self) -> Emit {
        Emit { text: self.out@, tmp: self.tmp }
    }

    /// A fresh name `t<n>`.
    fn fresh(&mut self) -> (r: String)
        ensures
            r@ == tname(old(self).tmp),
            final(self).out@ == old(self).out@,
            final(self).tmp == next_tmp(old(self).tmp),
            final(self).w == old(self).w,
    {
        let mut r = string_of("t");
        push_u64(&mut r, self.tmp as u64);
        self.tmp = if self.tmp == 0xffff_ffff { 0 } else { self.tmp + 1 };
        r
    }

    /// A fresh block label `pl_t<n>`.
    fn fresh_label(&mut self) -> (r: String)
        ensures
            r@ == pl_label(old(self).tmp),
            final(self).out@ == old(self).out@,
            final(self).tmp == next_tmp(old(self).tmp),
            final(self).w == old(self).w,
    {
        let t = self.fresh();
        let mut r = string_of("pl_");
        push_string(&mut r, &t);
        r
    }

    fn put(&mut self, t: &str)
        ensures
            final(self).out@ == old(self).out@ + t@,
            final(self).tmp == old(self).tmp,
            final(self).w == old(self).w,
    {
        push_str(&mut self.out, t);
    }

    fn put_s(&mut self, t: &String)
        ensures
            final(self).out@ == old(self).out@ + t@,
            final(self).tmp == old(self).tmp,
            final(self).w == old(self).w,
    {
        push_string(&mut self.out, t);
    }

    /// Checked binary operation through the overflow intrinsic `intr`.
    fn checked_binop(&mut self, intr: &str, a: &String, b: &String) -> (r: String)
        ensures
            (final(self).st(), r@) == checked_binop_spec(old(self).st(), old(self).w, intr@, a@, b@),
            final(self).w == old(self).w,
    {
        let pair = self.w.pair_ty();
        let et = self.w.llvm_ty();
        let t = self.fresh();
        let o = self.fresh();
        let sv = self.fresh();
        let lbl = self.fresh();
        self.put("  %");
        self.put_s(&t);
        self.put(" = call ");
        self.put(pair);
        self.put(" @");
        self.put(intr);
        self.put("(");
        self.put(et);
        self.put(" ");
        self.put_s(a);
        self.put(", ");
        self.put(et);
        self.put(" ");
        self.put_s(b);
        self.put(")\n");
        self.put("  %");
        self.put_s(&o);
        self.put(" = extractvalue ");
        self.put(pair);
        self.put(" %");
        self.put_s(&t);
        self.put(", 1\n");
        self.put("  br i1 %");
        self.put_s(&o);
        self.put(", label %trap_ov, label %cb_");
        self.put_s(&lbl);
        self.put("\n");
        self.put("cb_");
        self.put_s(&lbl);
        self.put(":\n");
        self.put("  %");
        self.put_s(&sv);
        self.put(" = extractvalue ");
        self.put(pair);
        self.put(" %");
        self.put_s(&t);
        self.put(", 0\n");
        let mut r = string_of("%");
        push_string(&mut r, &sv);
        r
    }
}

impl IrCg {
    fn guarded_div(&mut self, a: &String, b: &String, is_rem: bool) -> (r: String)
        ensures
            (final(self).st(), r@) == guarded_div_spec(old(self).st(), old(self).w, a@, b@, is_rem),
            final(self).w == old(self).w,
    {
        let et = self.w.llvm_ty();
        let p1 = if is_rem { "md_" } else { "dv_" };
        let p2 = if is_rem { "md2_" } else { "dv2_" };
        let opn = if is_rem { " = srem " } else { " = sdiv " };
        let z = self.fresh();
        let ok = self.fresh();
        self.put("  %");
        self.put_s(&z);
        self.put(" = icmp eq ");
        self.put(et);
        self.put(" ");
        self.put_s(b);
        self.put(", 0\n");
        self.put("  br i1 %");
        self.put_s(&z);
        self.put(", label %trap_div, label %");
        self.put(p1);
        self.put_s(&ok);
        self.put("\n");
        self.put(p1);
        self.put_s(&ok);
        self.put(":\n");
        let bad = self.fresh();
        let bad2 = self.fresh();
        let bad3 = self.fresh();
        let ok2 = self.fresh();
        let min = self.w.int_min_div();
        self.put("  %");
        self.put_s(&bad);
        self.put(" = icmp eq ");
        self.put(et);
        self.put(" ");
        self.put_s(a);
        self.put(", ");
        self.put(min);
        self.put("\n");
        self.put("  %");
        self.put_s(&bad2);
        self.put(" = icmp eq ");
        self.put(et);
        self.put(" ");
        self.put_s(b);
        self.put(", -1\n");
        self.put("  %");
        self.put_s(&bad3);
        self.put(" = and i1 %");
        self.put_s(&bad);
        self.put(", %");
        self.put_s(&bad2);
        self.put("\n");
        self.put("  br i1 %");
        self.put_s(&bad3);
        self.put(", label %trap_ov, label %");
        self.put(p2);
        self.put_s(&ok2);
        self.put("\n");
        self.put(p2);
        self.put_s(&ok2);
        self.put(":\n");
        let q = self.fresh();
        self.put("  %");
        self.put_s(&q);
        self.put(opn);
        self.put(et);
        self.put(" ");
        self.put_s(a);
        self.put(", ");
        self.put_s(b);
        self.put("\n");
        let mut r = string_of("%");
        push_string(&mut r, &q);
        r
    }

    /// Signed division that traps on a zero divisor and on overflow.
    fn emit_div(&mut self, a: &String, b: &String) -> (r: String)
        ensures
            (final(self).st(), r@) == guarded_div_spec(old(self).st(), old(self).w, a@, b@, false),
            final(self).w == old(self).w,
    {
        self.guarded_div(a, b, false)
    }

    /// Signed remainder that traps on a zero divisor and on overflow.
    fn emit_mod(&mut self, a: &String, b: &String) -> (r: String)
        ensures
            (final(self).st(), r@) == guarded_div_spec(old(self).st(), old(self).w, a@, b@, true),
            final(self).w == old(self).w,
    {
        self.guarded_div(a, b, true)
    }

    /// Lowers a `map` expression; `dot` names the current element.
    fn emit_map_expr(&mut self, e: &Expr, dot: &String) -> (r: String)
        ensures
            (final(self).st(), r@) == map_expr_spec(old(self).st(), old(self).w, *e, dot@),
            final(self).w == old(self).w,
        decreases e,
    {
        match e {
            Expr::Dot { .. } => {
                let ds = dot.as_str();
                if ds.unicode_len() > 0 && ds.get_char(0) == '%' {
                    dot.clone()
                } else {
                    let mut r = string_of("%");
                    push_string(&mut r, dot);
                    r
                }
            },
            Expr::Lit { v, .. } => {
                let mut r = String::new();
                match self.w {
                    IntWidth::W8 => {
                        if *v < -128 || *v > 127 {
                            push_str(&mut r, "0");
                        } else {
                            push_i64(&mut r, *v);
                        }
                    },
                    IntWidth::W32 => {
                        if *v < -2147483648 || *v > 2147483647 {
                            push_str(&mut r, "0");
                        } else {
                            push_i64(&mut r, *v);
                        }
                    },
                    IntWidth::W64 => {
                        push_i64(&mut r, *v);
                    },
                }
                proof {
                    assert(Seq::<char>::empty() + "0"@ =~= "0"@);
                    assert(Seq::<char>::empty() + int_decimal(*v as int) =~= int_decimal(*v as int));
                }
                r
            },
            Expr::Neg { inner, .. } => {
                let v = self.emit_map_expr(inner, dot);
                let intr = self.w.ssub_intrinsic();
                let pair = self.w.pair_ty();
                let et = self.w.llvm_ty();
                let t = self.fresh();
                let o = self.fresh();
                let lb = self.fresh();
                let sv = self.fresh();
                self.put("  %");
                self.put_s(&t);
                self.put(" = call ");
                self.put(pair);
                self.put(" @");
                self.put(intr);
                self.put("(");
                self.put(et);
                self.put(" 0, ");
                self.put(et);
                self.put(" ");
                self.put_s(&v);
                self.put(")\n");
                self.put("  %");
                self.put_s(&o);
                self.put(" = extractvalue ");
                self.put(pair);
                self.put(" %");
                self.put_s(&t);
                self.put(", 1\n");
                self.put("  br i1 %");
                self.put_s(&o);
                self.put(", label %trap_ov, label %neg_");
                self.put_s(&lb);
                self.put("\n");
                self.put("neg_");
                self.put_s(&lb);
                self.put(":\n");
                self.put("  %");
                self.put_s(&sv);
                self.put(" = extractvalue ");
                self.put(pair);
                self.put(" %");
                self.put_s(&t);
                self.put(", 0\n");
                let mut r = string_of("%");
                push_string(&mut r, &sv);
                r
            },
            Expr::Add { left, right, .. } => {
                let a = self.emit_map_expr(left, dot);
                let b = self.emit_map_expr(right, dot);
                let intr = self.w.sadd_intrinsic();
                self.checked_binop(intr, &a, &b)
            },
            Expr::Sub { left, right, .. } => {
                let a = self.emit_map_expr(left, dot);
                let b = self.emit_map_expr(right, dot);
                let intr = self.w.ssub_intrinsic();
                self.checked_binop(intr, &a, &b)
            },
            Expr::Mul { left, right, .. } => {
                let a = self.emit_map_expr(left, dot);
                let b = self.emit_map_expr(right, dot);
                let intr = self.w.smul_intrinsic();
                self.checked_binop(intr, &a, &b)
            },
            Expr::Div { left, right, .. } => {
                let a = self.emit_map_expr(left, dot);
                let b = self.emit_map_expr(right, dot);
                self.emit_div(&a, &b)
            },
            Expr::Mod { left, right, .. } => {
                let a = self.emit_map_expr(left, dot);
                let b = self.emit_map_expr(right, dot);
                self.emit_mod(&a, &b)
            },
        }
    }
}

/// `lbl:` and a line break.
fn label_line(lbl: &String) -> (r: String)
    ensures
        r@ == lbl@ + ":\n"@,
{
    let mut r = lbl.clone();
    push_str(&mut r, ":\n");
    r
}

/// `  br label %<target>` and a line break.
fn br_line(target: &String) -> (r: String)
    ensures
        r@ == "  br label %"@ + target@ + "\n"@,
{
    let mut r = string_of("  br label %");
    push_string(&mut r, target);
    push_str(&mut r, "\n");
    r
}

impl IrCg {
    fn emit_never(&mut self) -> (r: String)
        ensures
            (final(self).st(), r@) == never_spec(old(self).st()),
            final(self).w == old(self).w,
    {
        let t = self.fresh();
        self.put("  %");
        self.put_s(&t);
        self.put(" = icmp eq i32 0, 1\n");
        let mut r = string_of("%");
        push_string(&mut r, &t);
        r
    }

    /// A leaf predicate as one `i1` value (no terminator).
    fn predicate_atom_i1(&mut self, p: &Predicate, x: &String) -> (r: String)
        requires
            !(p is And || p is Or || p is Not),
        ensures
            (final(self).st(), r@) == pred_atom_spec(old(self).st(), old(self).w, *p, x@),
            final(self).w == old(self).w,
    {
        let et = self.w.llvm_ty();
        match p {
            Predicate::Even { .. } | Predicate::Odd { .. } => {
                let a = self.fresh();
                let b = self.fresh();
                self.put("  %");
                self.put_s(&a);
                self.put(" = and ");
                self.put(et);
                self.put(" ");
                self.put_s(x);
                self.put(", 1\n");
                self.put("  %");
                self.put_s(&b);
                if matches!(p, Predicate::Even { .. }) {
                    self.put(" = icmp eq ");
                } else {
                    self.put(" = icmp ne ");
                }
                self.put(et);
                self.put(" %");
                self.put_s(&a);
                self.put(", 0\n");
                let mut r = string_of("%");
                push_string(&mut r, &b);
                r
            },
            Predicate::Cmp { op, rhs, .. } => match rhs {
                CmpRhs::Bool(want) => {
                    if self.w == IntWidth::W8 && *op == CmpOp::Eq {
                        let t = self.fresh();
                        self.put("  %");
                        self.put_s(&t);
                        self.put(" = icmp eq ");
                        self.put(et);
                        self.put(" ");
                        self.put_s(x);
                        self.put(", ");
                        if *want {
                            self.put("1");
                        } else {
                            self.put("0");
                        }
                        self.put("\n");
                        let mut r = string_of("%");
                        push_string(&mut r, &t);
                        r
                    } else {
                        self.emit_never()
                    }
                },
                CmpRhs::Int(v) => {
                    if self.w == IntWidth::W8 || (self.w == IntWidth::W32 && (*v < -2147483648 || *v > 2147483647)) {
                        self.emit_never()
                    } else {
                        let pred = match op {
                            CmpOp::Eq => "eq",
                            CmpOp::Lt => "slt",
                            CmpOp::Le => "sle",
                            CmpOp::Gt => "sgt",
                            CmpOp::Ge => "sge",
                        };
                        let t = self.fresh();
                        self.put("  %");
                        self.put_s(&t);
                        self.put(" = icmp ");
                        self.put(pred);
                        self.put(" ");
                        self.put(et);
                        self.put(" ");
                        self.put_s(x);
                        self.put(", ");
                        push_i64(&mut self.out, *v);
                        self.put("\n");
                        let mut r = string_of("%");
                        push_string(&mut r, &t);
                        r
                    }
                },
            },
            _ => x.clone(),
        }
    }

    /// A filter predicate as branches to `ok_lbl` or `fail_lbl`; `&` and `or` short-circuit.
    fn emit_predicate_branch(&mut self, p: &Predicate, x: &String, ok_lbl: &String, fail_lbl: &String)
        ensures
            final(self).st() == pred_branch_spec(old(self).st(), old(self).w, *p, x@, ok_lbl@, fail_lbl@),
            final(self).w == old(self).w,
        decreases p,
    {
        match p {
            Predicate::And { left, right, .. } => {
                let mid = self.fresh_label();
                self.emit_predicate_branch(left, x, &mid, fail_lbl);
                let l = label_line(&mid);
                self.put_s(&l);
                self.emit_predicate_branch(right, x, ok_lbl, fail_lbl);
            },
            Predicate::Or { left, right, .. } => {
                let mid = self.fresh_label();
                self.emit_predicate_branch(left, x, ok_lbl, &mid);
                let l = label_line(&mid);
                self.put_s(&l);
                self.emit_predicate_branch(right, x, ok_lbl, fail_lbl);
            },
            Predicate::Not { inner, .. } => {
                self.emit_predicate_branch(inner, x, fail_lbl, ok_lbl);
            },
            _ => {
                let reg = self.predicate_atom_i1(p, x);
                let mut l = string_of("  br i1 ");
                push_string(&mut l, &reg);
                push_str(&mut l, ", label %");
                push_string(&mut l, ok_lbl);
                push_str(&mut l, ", label %");
                push_string(&mut l, fail_lbl);
                push_str(&mut l, "\n");
                self.put_s(&l);
            },
        }
    }
}

proof fn lemma_strs_push(v: Seq<String>, x: String)
    ensures
        strs(v.push(x)) == strs(v).push(x@),
{
    assert(strs(v.push(x)) =~= strs(v).push(x@));
}

impl IrCg {
    /// Lowers `ops` starting at block `first_label` (the caller branches into it). A failed
    /// filter branches to `fail_label`; after the last operation the code branches to
    /// `succ_label`. Returns the name of the final element and the blocks whose filters
    /// skip the fold.
    fn emit_pipeline_ops(
        &mut self,
        ops: &Vec<PipelineOp>,
        start_reg: &String,
        first_label: &String,
        fail_label: &String,
        succ_label: &String,
    ) -> (r: (String, Vec<String>))
        ensures
            (final(self).st(), r.0@, strs(r.1@)) == pipeline_ops_spec(old(self).st(), old(self).w, ops@, start_reg@, first_label@, fail_label@, succ_label@),
            final(self).w == old(self).w,
    {
        let n = ops.len();
        if n == 0 {
            proof {
                assert(strs(Seq::<String>::empty()) =~= Seq::<Seq<char>>::empty());
            }
            return (start_reg.clone(), Vec::new());
        }
        let ghost goal = ops_spec(self.st(), self.w, ops@, 0, first_label@, start_reg@, Seq::empty(), fail_label@, succ_label@);
        let mut skip_blocks: Vec<String> = Vec::new();
        let mut lbl = first_label.clone();
        let mut cur = start_reg.clone();
        let mut i: usize = 0;
        proof {
            assert(strs(skip_blocks@) =~= Seq::<Seq<char>>::empty());
        }
        while i < n
            invariant
                i < n == ops@.len(),
                self.w == old(self).w,
                goal == pipeline_ops_spec(old(self).st(), old(self).w, ops@, start_reg@, first_label@, fail_label@, succ_label@),
                goal == ops_spec(self.st(), self.w, ops@, i as int, lbl@, cur@, strs(skip_blocks@), fail_label@, succ_label@),
            decreases n - i,
        {
            let l = label_line(&lbl);
            self.put_s(&l);
            match &ops[i] {
                PipelineOp::Filter(p) => {
                    proof {
                        lemma_strs_push(skip_blocks@, lbl);
                    }
                    skip_blocks.push(lbl.clone());
                    let ok = self.fresh_label();
                    self.emit_predicate_branch(p, &cur, &ok, fail_label);
                    if i + 1 == n {
                        let mut t = label_line(&ok);
                        push_str(&mut t, "  br label %");
                        push_string(&mut t, succ_label);
                        push_str(&mut t, "\n");
                        self.put_s(&t);
                        return (cur, skip_blocks);
                    } else {
                        lbl = ok;
                    }
                },
                PipelineOp::MapEach(expr) => {
                    cur = self.emit_map_expr(expr, &cur);
                    if i + 1 == n {
                        let t = br_line(succ_label);
                        self.put_s(&t);
                        return (cur, skip_blocks);
                    } else {
                        let next = self.fresh_label();
                        let t = br_line(&next);
                        self.put_s(&t);
                        lbl = next;
                    }
                },
            }
            i = i + 1;
        }
        (cur, skip_blocks)
    }

    /// One scan step: `acc op y`, checked.
    fn emit_scan_step(&mut self, op: ScanOp, acc: &String, y: &String) -> (r: String)
        ensures
            (final(self).st(), r@) == checked_binop_spec(old(self).st(), old(self).w, scan_intr_text(old(self).w, op), acc@, y@),
            final(self).w == old(self).w,
    {
        let intr = match op {
            ScanOp::Add => self.w.sadd_intrinsic(),
            ScanOp::Sub => self.w.ssub_intrinsic(),
            ScanOp::Mul => self.w.smul_intrinsic(),
        };
        self.checked_binop(intr, acc, y)
    }
}

/// Folds `fold_v` into `%acc`, leaving the result in `%acch`.
fn emit_reduce_block(cg: &mut IrCg, reduce: ReduceOp, fold_v: &String)
    ensures
        final(cg).st() == put(old(cg).st(), reduce_block_text(old(cg).w, reduce, fold_v@)),
        final(cg).w == old(cg).w,
{
    let width = cg.w;
    let et = width.llvm_ty();
    let pair = width.pair_ty();
    let mut l = String::new();
    match reduce {
        ReduceOp::Sum | ReduceOp::Prod => {
            let intr = if reduce == ReduceOp::Sum { width.sadd_intrinsic() } else { width.smul_intrinsic() };
            l = string_of("  %t = call ");
            push_str(&mut l, pair);
            push_str(&mut l, " @");
            push_str(&mut l, intr);
            push_str(&mut l, "(");
            push_str(&mut l, et);
            push_str(&mut l, " %acc, ");
            push_str(&mut l, et);
            push_str(&mut l, " ");
            push_string(&mut l, fold_v);
            push_str(&mut l, ")\n");
            push_str(&mut l, "  %ov = extractvalue ");
            push_str(&mut l, pair);
            push_str(&mut l, " %t, 1\n");
            if reduce == ReduceOp::Sum {
                push_str(&mut l, "  br i1 %ov, label %trap_ov, label %sum_ok\n");
                push_str(&mut l, "sum_ok:\n");
            } else {
                push_str(&mut l, "  br i1 %ov, label %trap_ov, label %prod_ok\n");
                push_str(&mut l, "prod_ok:\n");
            }
            push_str(&mut l, "  %acch = extractvalue ");
            push_str(&mut l, pair);
            push_str(&mut l, " %t, 0\n");
        },
        ReduceOp::Count => {
            l = string_of("  %t = call { i32, i1 } @llvm.sadd.with.overflow.i32(i32 %acc, i32 1)\n  %ov = extractvalue { i32, i1 } %t, 1\n  br i1 %ov, label %trap_ov, label %cnt_ok\ncnt_ok:\n  %acch = extractvalue { i32, i1 } %t, 0\n");
        },
        ReduceOp::Min | ReduceOp::Max => {
            if reduce == ReduceOp::Min {
                l = string_of("  %mm_le = icmp sle ");
            } else {
                l = string_of("  %mm_ge = icmp sge ");
            }
            push_str(&mut l, et);
            push_str(&mut l, " %acc, ");
            push_string(&mut l, fold_v);
            push_str(&mut l, "\n");
            if reduce == ReduceOp::Min {
                push_str(&mut l, "  %mm_pick = select i1 %mm_le, ");
            } else {
                push_str(&mut l, "  %mm_pick = select i1 %mm_ge, ");
            }
            push_str(&mut l, et);
            push_str(&mut l, " %acc, ");
            push_str(&mut l, et);
            push_str(&mut l, " ");
            push_string(&mut l, fold_v);
            push_str(&mut l, "\n");
            push_str(&mut l, "  %acch = select i1 %seen, ");
            push_str(&mut l, et);
            push_str(&mut l, " %mm_pick, ");
            push_str(&mut l, et);
            push_str(&mut l, " ");
            push_string(&mut l, fold_v);
            push_str(&mut l, "\n");
        },
    }
    cg.put_s(&l);
}

/// Stores in `dst` the accumulator after the first element `mapped`.
fn emit_scan_pre_seed_at(out: &mut String, width: IntWidth, reduce: ReduceOp, mapped: &String, dst: &str)
    ensures
        final(out)@ == old(out)@ + seed_text(width, reduce, mapped@, dst@),
{
    let acc_ty = llvm_fn_ret_ty(width, reduce);
    let mut l = string_of("  ");
    push_str(&mut l, dst);
    match reduce {
        ReduceOp::Sum => {
            push_str(&mut l, " = add nsw ");
            push_str(&mut l, acc_ty);
            push_str(&mut l, " 0, ");
            push_string(&mut l, mapped);
            push_str(&mut l, "\n");
        },
        ReduceOp::Prod => {
            push_str(&mut l, " = mul nsw ");
            push_str(&mut l, acc_ty);
            push_str(&mut l, " 1, ");
            push_string(&mut l, mapped);
            push_str(&mut l, "\n");
        },
        ReduceOp::Count => {
            push_str(&mut l, " = add nsw i32 0, 1\n");
        },
        ReduceOp::Min | ReduceOp::Max => {
            push_str(&mut l, " = add nsw ");
            push_str(&mut l, acc_ty);
            push_str(&mut l, " ");
            push_string(&mut l, mapped);
            push_str(&mut l, ", 0\n");
        },
    }
    push_string(out, &l);
}

/// Stores in `dst` the accumulator before any element.
fn emit_scan_pre_identity_at(out: &mut String, width: IntWidth, reduce: ReduceOp, dst: &str)
    ensures
        final(out)@ == old(out)@ + identity_text(width, reduce, dst@),
{
    let acc_ty = llvm_fn_ret_ty(width, reduce);
    let mut l = string_of("  ");
    push_str(&mut l, dst);
    match reduce {
        ReduceOp::Sum | ReduceOp::Min | ReduceOp::Max => {
            push_str(&mut l, " = add nsw ");
            push_str(&mut l, acc_ty);
            push_str(&mut l, " 0, 0\n");
        },
        ReduceOp::Prod => {
            push_str(&mut l, " = add nsw ");
            push_str(&mut l, acc_ty);
            push_str(&mut l, " 0, 1\n");
        },
        ReduceOp::Count => {
            push_str(&mut l, " = add nsw i32 0, 0\n");
        },
    }
    push_string(out, &l);
}

/// Appends the scan's initial value as a literal of the element type.
fn push_init_lit(l: &mut String, width: IntWidth, init: i64)
    ensures
        final(l)@ == old(l)@ + init_lit_text(width, init),
{
    match width {
        IntWidth::W8 => {
            let v = init as i8;
            push_i64(l, v as i64);
        },
        IntWidth::W32 => {
            let v = init as i32;
            push_i64(l, v as i64);
        },
        IntWidth::W64 => {
            push_i64(l, init);
        },
    }
}

/// The block that seeds the accumulator from the scan's initial value, run through the
/// operations after the scan. Returns the block that enters the loop.
fn emit_scan_pre(cg: &mut IrCg, reduce: ReduceOp, init: i64, post_scan: &Vec<PipelineOp>, minmax: bool) -> (r: String)
    ensures
        (final(cg).st(), r@) == scan_pre_spec(old(cg).st(), old(cg).w, reduce, init, post_scan@, minmax),
        final(cg).w == old(cg).w,
{
    let width = cg.w;
    cg.put("scan_pre:\n");
    let mut l = string_of("  %scan_el0 = add nsw ");
    push_str(&mut l, width.llvm_ty());
    push_str(&mut l, " ");
    push_init_lit(&mut l, width, init);
    push_str(&mut l, ", 0\n");
    cg.put_s(&l);
    let el0 = string_of("%scan_el0");
    if post_scan.len() == 0 {
        emit_scan_pre_seed_at(&mut cg.out, width, reduce, &el0, "%acc_seed");
        cg.put("  br label %loop\n");
        return string_of("scan_pre");
    }
    let first = cg.fresh_label();
    let b = br_line(&first);
    cg.put_s(&b);
    let fail_l = string_of("scan_pre_fail");
    let ok_l = string_of("scan_pre_ok");
    let (fin, _skips) = cg.emit_pipeline_ops(post_scan, &el0, &first, &fail_l, &ok_l);
    cg.put("scan_pre_fail:\n");
    emit_scan_pre_identity_at(&mut cg.out, width, reduce, "%acc_fail");
    cg.put("  br label %scan_pre_join\n");
    cg.put("scan_pre_ok:\n");
    emit_scan_pre_seed_at(&mut cg.out, width, reduce, &fin, "%acc_ok");
    cg.put("  br label %scan_pre_join\n");
    cg.put("scan_pre_join:\n");
    let mut l2 = string_of("  %acc_seed = phi ");
    push_str(&mut l2, llvm_fn_ret_ty(width, reduce));
    push_str(&mut l2, " [ %acc_ok, %scan_pre_ok ], [ %acc_fail, %scan_pre_fail ]\n");
    cg.put_s(&l2);
    if minmax {
        cg.put("  %seen_seed = phi i1 [ true, %scan_pre_ok ], [ false, %scan_pre_fail ]\n");
    }
    cg.put("  br label %loop\n");
    string_of("scan_pre_join")
}

/// Appends the incoming values of a `phi`: `v` from each block of `skips`, then `last`.
fn push_phi_parts(l: &mut String, skips: &Vec<String>, v: &str, last: &String)
    ensures
        final(l)@ == old(l)@ + phi_parts(strs(skips@), v@, last@),
{
    let n = skips.len();
    let ghost all = strs(skips@);
    let mut k: usize = 0;
    assert(all.subrange(0, n as int) =~= all);
    while k < n
        invariant
            k <= n == skips@.len(),
            all == strs(skips@),
            old(l)@ + phi_parts(all, v@, last@) == l@ + phi_parts(all.subrange(k as int, n as int), v@, last@),
        decreases n - k,
    {
        let ghost before = l@;
        let ghost rest = all.subrange(k + 1, n as int);
        assert(all.subrange(k as int, n as int).drop_first() =~= rest);
        assert(all.subrange(k as int, n as int)[0] == skips@[k as int]@);
        push_str(l, "[ ");
        push_str(l, v);
        push_str(l, ", %");
        push_string(l, &skips[k]);
        push_str(l, " ], ");
        proof {
            let item = "[ "@ + v@ + ", %"@ + skips@[k as int]@ + " ], "@;
            assert(l@ == before + item);
            vstd::seq_lib::lemma_concat_associative(before, item, phi_parts(rest, v@, last@));
        }
        k = k + 1;
    }
    assert(all.subrange(n as int, n as int) =~= Seq::<Seq<char>>::empty());
    push_string(l, last);
}

/// Entry branch, loop header, exit test and element load.
fn emit_loop_head(cg: &mut IrCg, reduce: ReduceOp, mode: &LoopMode, post_scan: &Vec<PipelineOp>, scan: Option<(i64, ScanOp)>)
    requires
        old(cg).st() == (Emit { text: Seq::empty(), tmp: 0 }),
    ensures
        final(cg).st() == loop_head_spec(old(cg).w, reduce, *mode, post_scan@, scan),
        final(cg).w == old(cg).w,
{
    let width = cg.w;
    let minmax = matches!(reduce, ReduceOp::Min | ReduceOp::Max);
    let et = width.llvm_ty();
    let acc_ty = llvm_fn_ret_ty(width, reduce);
    let lp = match scan {
        Some((init, _)) => {
            cg.put("  br label %scan_pre\n");
            emit_scan_pre(cg, reduce, init, post_scan, minmax)
        },
        None => {
            cg.put("  br label %loop\n");
            string_of("entry")
        },
    };
    let mut l = string_of("loop:\n");
    push_str(&mut l, "  %i = phi i32 [ 0, %");
    push_string(&mut l, &lp);
    push_str(&mut l, " ], [ %i1, %inc ]\n");
    cg.put_s(&l);
    if let Some((init, _)) = scan {
        let mut l = string_of("  %scan_acc = phi ");
        push_str(&mut l, et);
        push_str(&mut l, " [ ");
        push_init_lit(&mut l, width, init);
        push_str(&mut l, ", %");
        push_string(&mut l, &lp);
        push_str(&mut l, " ], [ %scan_acc1, %inc ]\n");
        cg.put_s(&l);
    }
    if minmax {
        let se = if scan.is_some() {
            if post_scan.len() == 0 { "true" } else { "%seen_seed" }
        } else {
            "false"
        };
        let mut l = string_of("  %seen = phi i1 [ ");
        push_str(&mut l, se);
        push_str(&mut l, ", %");
        push_string(&mut l, &lp);
        push_str(&mut l, " ], [ %seen1, %inc ]\n");
        cg.put_s(&l);
    }
    let mut l = string_of("  %acc = phi ");
    push_str(&mut l, acc_ty);
    if scan.is_some() {
        push_str(&mut l, " [ %acc_seed, %");
    } else {
        push_str(&mut l, " [ ");
        push_str(&mut l, if reduce == ReduceOp::Prod { "1" } else { "0" });
        push_str(&mut l, ", %");
    }
    push_string(&mut l, &lp);
    push_str(&mut l, " ], [ %acc1, %inc ]\n");
    proof {
        if scan is Some {
            assert(l@ == "  %acc = phi "@ + acc_ty@ + " [ %acc_seed, %"@ + lp@ + " ], [ %acc1, %inc ]\n"@);
        }
    }
    cg.put_s(&l);
    let mut l = string_of("  %done = icmp uge i32 %i, ");
    match mode {
        LoopMode::Input => push_str(&mut l, "%count"),
        LoopMode::Array { n } => push_usize(&mut l, *n),
    }
    push_str(&mut l, "\n");
    push_str(&mut l, "  br i1 %done, label %exit, label %body\n");
    push_str(&mut l, "body:\n");
    cg.put_s(&l);
    let al = width.align();
    let mut l = String::new();
    match mode {
        LoopMode::Input => {
            l = string_of("  %idx = add i32 %base, %i\n");
            push_str(&mut l, "  %p = getelementptr inbounds ");
            push_str(&mut l, et);
            push_str(&mut l, ", ");
            push_str(&mut l, et);
            push_str(&mut l, "* %in, i32 %idx\n");
        },
        LoopMode::Array { n } => {
            l = string_of("  %p = getelementptr inbounds [");
            push_usize(&mut l, *n);
            push_str(&mut l, " x ");
            push_str(&mut l, et);
            push_str(&mut l, "], [");
            push_usize(&mut l, *n);
            push_str(&mut l, " x ");
            push_str(&mut l, et);
            push_str(&mut l, "]* @lir_data, i64 0, i32 %i\n");
        },
    }
    push_str(&mut l, "  %x = load ");
    push_str(&mut l, et);
    push_str(&mut l, ", ");
    push_str(&mut l, et);
    push_str(&mut l, "* %p, align ");
    push_u64(&mut l, al as u64);
    push_str(&mut l, "\n");
    cg.put_s(&l);
}

proof fn lemma_strs_concat(a: Seq<String>, b: Seq<String>)
    ensures
        strs(a + b) == strs(a) + strs(b),
{
    assert(strs(a + b) =~= strs(a) + strs(b));
}

/// Operations before the scan, the scan step, and the fold. Returns the scanned element and
/// the blocks that skip the fold.
#[verifier::rlimit(50)]
fn emit_loop_body(cg: &mut IrCg, reduce: ReduceOp, pre_scan: &Vec<PipelineOp>, post_scan: &Vec<PipelineOp>, scan: Option<(i64, ScanOp)>) -> (r: (String, Vec<String>))
    ensures
        (final(cg).st(), r.0@, strs(r.1@)) == loop_body_spec(old(cg).st(), old(cg).w, reduce, pre_scan@, post_scan@, scan),
        final(cg).w == old(cg).w,
{
    let x = string_of("%x");
    let inc_l = string_of("inc");
    let (y, mut inc_skip) = if pre_scan.len() == 0 {
        cg.put("  br label %scan_hit\n");
        proof {
            assert(strs(Seq::<String>::empty()) =~= Seq::<Seq<char>>::empty());
        }
        (x, Vec::new())
    } else {
        let first = cg.fresh_label();
        let b = br_line(&first);
        cg.put_s(&b);
        let hit = string_of("scan_hit");
        cg.emit_pipeline_ops(pre_scan, &x, &first, &inc_l, &hit)
    };
    cg.put("scan_hit:\n");
    let sn = match scan {
        Some((_, sop)) => {
            let acc = string_of("%scan_acc");
            cg.emit_scan_step(sop, &acc, &y)
        },
        None => y,
    };
    if post_scan.len() == 0 {
        emit_reduce_block(cg, reduce, &sn);
    } else {
        let first = cg.fresh_label();
        let b = br_line(&first);
        cg.put_s(&b);
        let tail_l = string_of("fold_tail");
        let (fin, skips) = cg.emit_pipeline_ops(post_scan, &sn, &first, &inc_l, &tail_l);
        let ghost before = inc_skip@;
        let mut k: usize = 0;
        while k < skips.len()
            invariant
                k <= skips@.len(),
                inc_skip@ == before + skips@.subrange(0, k as int),
            decreases skips@.len() - k,
        {
            inc_skip.push(skips[k].clone());
            assert(skips@.subrange(0, k + 1) =~= skips@.subrange(0, k as int).push(skips@[k as int]));
            k = k + 1;
        }
        proof {
            assert(skips@.subrange(0, skips@.len() as int) =~= skips@);
            lemma_strs_concat(before, skips@);
        }
        cg.put("fold_tail:\n");
        emit_reduce_block(cg, reduce, &fin);
    }
    (sn, inc_skip)
}

/// The `%inc` block, the exit block and the trap blocks.
fn loop_tail(width: IntWidth, reduce: ReduceOp, post_empty: bool, has_scan: bool, sn: &String, skips: &Vec<String>) -> (r: String)
    ensures
        r@ == loop_tail_text(width, reduce, post_empty, has_scan, sn@, strs(skips@)),
{
    let et = width.llvm_ty();
    let acc_ty = llvm_fn_ret_ty(width, reduce);
    let minmax = matches!(reduce, ReduceOp::Min | ReduceOp::Max);
    let fe = match reduce {
        ReduceOp::Sum => "sum_ok",
        ReduceOp::Prod => "prod_ok",
        ReduceOp::Count => "cnt_ok",
        _ => if post_empty { "scan_hit" } else { "fold_tail" },
    };
    let mut l = string_of("  br label %inc\n");
    push_str(&mut l, "inc:\n");
    if minmax {
        let mut last = string_of("[ true, %");
        push_str(&mut last, fe);
        push_str(&mut last, " ]");
        push_str(&mut l, "  %seen1 = phi i1 ");
        push_phi_parts(&mut l, skips, "%seen", &last);
        push_str(&mut l, "\n");
    }
    if has_scan {
        let mut last = string_of("[ ");
        push_string(&mut last, sn);
        push_str(&mut last, ", %");
        push_str(&mut last, fe);
        push_str(&mut last, " ]");
        push_str(&mut l, "  %scan_acc1 = phi ");
        push_str(&mut l, et);
        push_str(&mut l, " ");
        push_phi_parts(&mut l, skips, "%scan_acc", &last);
        push_str(&mut l, "\n");
    }
    let mut last = string_of("[ %acch, %");
    push_str(&mut last, fe);
    push_str(&mut last, " ]");
    push_str(&mut l, "  %acc1 = phi ");
    push_str(&mut l, acc_ty);
    push_str(&mut l, " ");
    push_phi_parts(&mut l, skips, "%acc", &last);
    push_str(&mut l, "\n");
    push_str(&mut l, "  %i1 = add nuw nsw i32 %i, 1\n");
    push_str(&mut l, "  br label %loop\n");
    push_str(&mut l, "exit:\n");
    if minmax {
        push_str(&mut l, "  br i1 %seen, label %mm_ok, label %trap_mm_empty\n");
        push_str(&mut l, "mm_ok:\n");
        push_str(&mut l, "  ret ");
        push_str(&mut l, acc_ty);
        push_str(&mut l, " %acc\n");
        push_str(&mut l, "trap_mm_empty:\n  call void @llvm.trap()\n  unreachable\n");
    } else {
        push_str(&mut l, "  ret ");
        push_str(&mut l, acc_ty);
        push_str(&mut l, " %acc\n");
    }
    push_str(&mut l, "trap_ov:\n  call void @llvm.trap()\n  unreachable\n");
    push_str(&mut l, "trap_div:\n  call void @llvm.trap()\n  unreachable\n");
    l
}

/// The loop of `@lir_main`: header, body with the fused operations, the fold, the exit
/// and the trap blocks.
pub fn emit_loop_core(
    out: &mut String,
    width: IntWidth,
    reduce: ReduceOp,
    mode: LoopMode,
    pre_scan: &Vec<PipelineOp>,
    post_scan: &Vec<PipelineOp>,
    scan: Option<(i64, ScanOp)>,
)
    ensures
        final(out)@ == old(out)@ + loop_core_text(width, reduce, mode, pre_scan@, post_scan@, scan),
{
    let mut cg = IrCg { out: String::new(), tmp: 0, w: width };
    emit_loop_head(&mut cg, reduce, &mode, post_scan, scan);
    let (sn, skips) = emit_loop_body(&mut cg, reduce, pre_scan, post_scan, scan);
    let tail = loop_tail(width, reduce, post_scan.len() == 0, scan.is_some(), &sn, &skips);
    cg.put_s(&tail);
    push_string(out, &cg.out);
    proof {
        reveal(loop_core_text);
    }
}

} // verus!
