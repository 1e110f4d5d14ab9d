//! What single operations mean, stated over all of their inputs: the `icmp` that a filter
//! comparison is compiled to, the `reduce` folds, the element types on which `even` and `odd`
//! type-check, LYTR comparisons, and the numerals that `input:` arrays accept.

use vstd::prelude::*;
use crate::ast::{CmpOp, CmpRhs, ElemTy, Expr, Predicate, Program, ReduceOp, ScanOp, Source, Stage};
use crate::types::{check_pred_spec, check_program_spec, check_stages_from};
use crate::error::Span;
use crate::interp::{filter_from, map_from, scan_from, eval_expr_spec, run_stage_spec, Flow, minmax_from, minmax_spec, arith_spec, eval_pred_spec, fits_i32, fits_i64, fold_from, reduce_spec, val_has_ty, Val};
use crate::llvm_ir::IntWidth;
use crate::llvm_text::{pred_atom_spec, tname, ty_text, Emit};
use crate::text::{int_decimal, nat_decimal};
use crate::input_parse::{all_digits, comma_from, elem_spec, elems_from, has_sign, i64_text_value, input_array_spec, is_ws, trim_end_char, trim_end_ws, trim_start_char, trim_start_ws, trim_ws};
use crate::lytr::ast::ExprV;
use crate::lytr::interp::{eval_i32_sp, eval_sp, EnvV, Val as LytrVal};

verus! {

/// What an LLVM `icmp` with predicate `pred` computes on two integers read as signed values
/// (LLVM Language Reference, `icmp`): `eq`, `ne`, `slt`, `sle`, `sgt`, `sge`.
pub open spec fn icmp_holds(pred: Seq<char>, a: int, b: int) -> bool {
    if pred == "eq"@ {
        a == b
    } else if pred == "ne"@ {
        a != b
    } else if pred == "slt"@ {
        a < b
    } else if pred == "sle"@ {
        a <= b
    } else if pred == "sgt"@ {
        a > b
    } else if pred == "sge"@ {
        a >= b
    } else {
        false
    }
}

/// The stream value of an integer `a` at width `w`.
pub open spec fn int_val(w: IntWidth, a: int) -> Val {
    if w == IntWidth::W32 { Val::I32(a as i32) } else { Val::I64(a as i64) }
}

/// An `i64` as a mathematical integer.
pub open spec fn int_of(v: i64) -> int {
    v as int
}

/// The stream type of width `w`.
pub open spec fn width_ty(w: IntWidth) -> ElemTy {
    if w == IntWidth::W32 { ElemTy::I32 } else { ElemTy::I64 }
}

/// Whether `a` is a value of width `w`.
pub open spec fn fits_width(w: IntWidth, a: int) -> bool {
    if w == IntWidth::W32 { i32::MIN <= a <= i32::MAX } else { i64::MIN <= a <= i64::MAX }
}

proof fn lemma_icmp_words()
    ensures
        "eq"@ != "ne"@, "eq"@ != "slt"@, "eq"@ != "sle"@, "eq"@ != "sgt"@, "eq"@ != "sge"@,
        "ne"@ != "slt"@, "ne"@ != "sle"@, "ne"@ != "sgt"@, "ne"@ != "sge"@,
        "slt"@ != "sle"@, "slt"@ != "sgt"@, "slt"@ != "sge"@,
        "sle"@ != "sgt"@, "sle"@ != "sge"@, "sgt"@ != "sge"@,
{
    reveal_strlit("eq");
    reveal_strlit("ne");
    reveal_strlit("slt");
    reveal_strlit("sle");
    reveal_strlit("sgt");
    reveal_strlit("sge");
    assert("eq"@[0] != "ne"@[0]);
    assert("eq"@[0] != "slt"@[0]);
    assert("ne"@[0] != "slt"@[0]);
    assert("slt"@[1] != "sgt"@[1]);
    assert("slt"@[2] != "sle"@[2]);
    assert("slt"@[1] != "sge"@[1]);
    assert("sle"@[1] != "sgt"@[1]);
    assert("sle"@[1] != "sge"@[1]);
    assert("sgt"@[2] != "sge"@[2]);
}

/// A filter comparison against an integer literal `v` of the stream's width is compiled to
/// one `icmp` of the element `x` with `v`, and that `icmp` holds on an element `a` exactly
/// when the interpreter keeps `a`: `eq v` keeps `a == v`, `lt v` keeps `a < v`, `le v` keeps
/// `a <= v`, `gt v` keeps `a > v`, `ge v` keeps `a >= v`. The result is the `icmp` predicate
/// written in the text.
pub proof fn law_compiled_comparison_keeps_what_the_interpreter_keeps(
    s: Emit,
    w: IntWidth,
    op: CmpOp,
    v: i64,
    span: Span,
    x: Seq<char>,
    a: int,
) -> (pred: Seq<char>)
    requires
        w != IntWidth::W8,
        fits_width(w, int_of(v)),
        fits_width(w, a),
    ensures
        pred_atom_spec(s, w, Predicate::Cmp { op, rhs: CmpRhs::Int(v), span }, x).0.text == s.text + "  %"@ + tname(s.tmp)
            + " = icmp "@ + pred + " "@ + ty_text(w) + " "@ + x + ", "@ + int_decimal(int_of(v)) + "\n"@,
        icmp_holds(pred, a, int_of(v)) <==> eval_pred_spec(
            Predicate::Cmp { op, rhs: CmpRhs::Int(v), span },
            int_val(w, a),
            width_ty(w),
        ) == Ok::<bool, crate::interp::Fault>(true),
        op == CmpOp::Eq ==> (icmp_holds(pred, a, int_of(v)) <==> a == v),
        op == CmpOp::Lt ==> (icmp_holds(pred, a, int_of(v)) <==> a < v),
        op == CmpOp::Le ==> (icmp_holds(pred, a, int_of(v)) <==> a <= v),
        op == CmpOp::Gt ==> (icmp_holds(pred, a, int_of(v)) <==> a > v),
        op == CmpOp::Ge ==> (icmp_holds(pred, a, int_of(v)) <==> a >= v),
{
    lemma_icmp_words();
    crate::llvm_text::int_pred_text(op)
}

/// `even` and `odd` are compiled to the low bit of the element (`and` with 1, which is the
/// element modulo 2 in two's complement) and one `icmp` of that bit with 0, and that `icmp`
/// holds on an element `a` exactly when the interpreter keeps `a`: `even` keeps even `a`,
/// `odd` keeps odd `a`. The result is the `icmp` predicate written in the text.
pub proof fn law_compiled_parity_keeps_what_the_interpreter_keeps(
    s: Emit,
    w: IntWidth,
    p: Predicate,
    x: Seq<char>,
    a: int,
) -> (pred: Seq<char>)
    requires
        w != IntWidth::W8,
        p is Even || p is Odd,
        fits_width(w, a),
    ensures
        pred_atom_spec(s, w, p, x).0.text == s.text + "  %"@ + tname(s.tmp) + " = and "@ + ty_text(w) + " "@ + x
            + ", 1\n"@ + "  %"@ + tname(crate::llvm_text::next_tmp(s.tmp)) + " = icmp "@ + pred + " "@ + ty_text(w)
            + " %"@ + tname(s.tmp) + ", 0\n"@,
        icmp_holds(pred, a % 2, 0) <==> eval_pred_spec(p, int_val(w, a), width_ty(w)) == Ok::<bool, crate::interp::Fault>(true),
        p is Even ==> (icmp_holds(pred, a % 2, 0) <==> a % 2 == 0),
        p is Odd ==> (icmp_holds(pred, a % 2, 0) <==> a % 2 != 0),
{
    lemma_icmp_words();
    let et = ty_text(w);
    let t1 = tname(s.tmp);
    let t2 = tname(crate::llvm_text::next_tmp(s.tmp));
    let pred = if p is Even { "eq"@ } else { "ne"@ };
    reveal_strlit(" = icmp eq ");
    reveal_strlit(" = icmp ne ");
    reveal_strlit(" = icmp ");
    reveal_strlit("eq");
    reveal_strlit("ne");
    reveal_strlit(" ");
    assert(" = icmp eq "@ =~= " = icmp "@ + "eq"@ + " "@);
    assert(" = icmp ne "@ =~= " = icmp "@ + "ne"@ + " "@);
    assert(pred_atom_spec(s, w, p, x).0.text =~= s.text + "  %"@ + t1 + " = and "@ + et + " "@ + x
            + ", 1\n"@ + "  %"@ + t2 + " = icmp "@ + pred + " "@ + et + " %"@ + t1 + ", 0\n"@);
    pred
}

/// The integer that a stream value holds (0 for a bool).
pub open spec fn int_value(v: Val) -> int {
    match v {
        Val::I32(x) => x as int,
        Val::I64(x) => x as int,
        Val::Bool(_) => 0,
    }
}

/// The integers that the values of a stream hold.
pub open spec fn ints(vs: Seq<Val>) -> Seq<int> {
    vs.map_values(|v: Val| int_value(v))
}

/// The product of a sequence of integers (1 for none).
pub open spec fn product(s: Seq<int>) -> int
    decreases s.len(),
{
    if s.len() == 0 { 1 } else { product(s.drop_last()) * s.last() }
}

/// The sum of a sequence of integers (0 for none).
pub open spec fn sum(s: Seq<int>) -> int
    decreases s.len(),
{
    if s.len() == 0 { 0 } else { sum(s.drop_last()) + s.last() }
}

/// Whether `x` is a value of the integer type `ty`.
pub open spec fn fits_ty(ty: ElemTy, x: int) -> bool {
    if ty == ElemTy::I32 { fits_i32(x) } else { fits_i64(x) }
}

/// Whether every value of `vs` has type `ty`.
pub open spec fn all_of_ty(vs: Seq<Val>, ty: ElemTy) -> bool {
    forall|k: int| 0 <= k < vs.len() ==> val_has_ty(#[trigger] vs[k], ty)
}

/// Sum (`Add`) or product (`Mul`) of a sequence.
spec fn total(op: ScanOp, s: Seq<int>) -> int {
    if op == ScanOp::Add { sum(s) } else { product(s) }
}

/// Folding `vs[i..]` into an accumulator that holds the total of `vs[..i]`.
proof fn lemma_fold_total(op: ScanOp, acc: Val, vs: Seq<Val>, ty: ElemTy, span: Span, si: usize, i: int)
    requires
        op != ScanOp::Sub,
        ty != ElemTy::Bool,
        1 <= i <= vs.len(),
        all_of_ty(vs, ty),
        val_has_ty(acc, ty),
        int_value(acc) == total(op, ints(vs).take(i)),
    ensures
        fold_from(op, acc, vs, span, si, i) matches Ok(r) ==> val_has_ty(r, ty) && int_value(r) == total(op, ints(vs)),
        (forall|k: int| i < k <= vs.len() ==> fits_ty(ty, #[trigger] total(op, ints(vs).take(k))))
            ==> fold_from(op, acc, vs, span, si, i) is Ok,
    decreases vs.len() - i,
{
    let s = ints(vs);
    if i == vs.len() {
        assert(s.take(i) =~= s);
    } else {
        assert(s.take(i + 1).drop_last() =~= s.take(i));
        assert(s.take(i + 1).last() == int_value(vs[i]));
        assert(val_has_ty(vs[i], ty));
        if let Ok(a2) = arith_spec(op, acc, vs[i]) {
            lemma_fold_total(op, a2, vs, ty, span, si, i + 1);
        } else {
            assert(!fits_ty(ty, total(op, s.take(i + 1))));
        }
    }
}

/// `reduce sum` and `reduce prod` of a stream of integers give the sum and the product of
/// its elements, as a value of the stream's type (0 and 1 for an empty stream), and they
/// succeed whenever every running sum (product) fits that type.
pub proof fn law_reduce_sum_and_prod_are_sum_and_product(vs: Seq<Val>, ty: ElemTy, span: Span, si: usize)
    requires
        ty != ElemTy::Bool,
        all_of_ty(vs, ty),
    ensures
        reduce_spec(ReduceOp::Prod, vs, ty, span, si) matches Ok(r) ==> val_has_ty(r, ty) && int_value(r) == product(ints(vs)),
        reduce_spec(ReduceOp::Sum, vs, ty, span, si) matches Ok(r) ==> val_has_ty(r, ty) && int_value(r) == sum(ints(vs)),
        (forall|k: int| 1 <= k <= vs.len() ==> fits_ty(ty, #[trigger] product(ints(vs).take(k))))
            ==> reduce_spec(ReduceOp::Prod, vs, ty, span, si) is Ok,
        (forall|k: int| 1 <= k <= vs.len() ==> fits_ty(ty, #[trigger] sum(ints(vs).take(k))))
            ==> reduce_spec(ReduceOp::Sum, vs, ty, span, si) is Ok,
{
    if vs.len() > 0 {
        let s = ints(vs);
        assert(s.take(1).drop_last() =~= Seq::<int>::empty());
        assert(s.take(1).last() == int_value(vs[0]));
        assert(product(Seq::<int>::empty()) == 1);
        assert(sum(Seq::<int>::empty()) == 0);
        assert(product(s.take(1)) == int_value(vs[0]));
        assert(sum(s.take(1)) == int_value(vs[0]));
        assert(val_has_ty(vs[0], ty));
        lemma_fold_total(ScanOp::Mul, vs[0], vs, ty, span, si, 1);
        lemma_fold_total(ScanOp::Add, vs[0], vs, ty, span, si, 1);
        if forall|k: int| 1 <= k <= vs.len() ==> fits_ty(ty, #[trigger] product(s.take(k))) {
            assert forall|k: int| 1 < k <= vs.len() implies fits_ty(ty, #[trigger] total(ScanOp::Mul, s.take(k))) by {
                assert(fits_ty(ty, product(s.take(k))));
            }
        }
        if forall|k: int| 1 <= k <= vs.len() ==> fits_ty(ty, #[trigger] sum(s.take(k))) {
            assert forall|k: int| 1 < k <= vs.len() implies fits_ty(ty, #[trigger] total(ScanOp::Add, s.take(k))) by {
                assert(fits_ty(ty, sum(s.take(k))));
            }
        }
    } else {
        assert(ints(vs) =~= Seq::<int>::empty());
    }
}

/// Whether a predicate is made of `even` and `odd` alone, under `not`, `&` and `or`.
pub open spec fn parity_only(p: Predicate) -> bool
    decreases p,
{
    match p {
        Predicate::Or { left, right, .. } | Predicate::And { left, right, .. } => parity_only(*left) && parity_only(*right),
        Predicate::Not { inner, .. } => parity_only(*inner),
        Predicate::Even { .. } | Predicate::Odd { .. } => true,
        Predicate::Cmp { .. } => false,
    }
}

/// `even` and `odd` type-check exactly on integer streams: a predicate made of them passes
/// the checker on an `i32` or an `i64` stream, and on a bool stream it is refused with
/// `T_FILTER_EVEN_BOOL`.
pub proof fn law_parity_checks_exactly_on_integer_streams(p: Predicate, ty: ElemTy, span: Span, si: usize)
    requires
        parity_only(p),
    ensures
        (check_pred_spec(p, ty, span, si) is None) <==> ty != ElemTy::Bool,
        ty == ElemTy::Bool ==> (check_pred_spec(p, ty, span, si) matches Some(e) && e.code == "T_FILTER_EVEN_BOOL"@),
    decreases p,
{
    match p {
        Predicate::Or { left, right, .. } | Predicate::And { left, right, .. } => {
            law_parity_checks_exactly_on_integer_streams(*left, ty, span, si);
            law_parity_checks_exactly_on_integer_streams(*right, ty, span, si);
        },
        Predicate::Not { inner, .. } => {
            law_parity_checks_exactly_on_integer_streams(*inner, ty, span, si);
        },
        _ => {},
    }
}

/// Whether a stage only selects elements by parity or by position: a `filter` made of `even`
/// and `odd`, `take`, `drop` or `id`.
pub open spec fn parity_or_position(st: Stage) -> bool {
    match st {
        Stage::Filter { pred, .. } => parity_only(pred),
        Stage::Take { .. } | Stage::Drop { .. } | Stage::Id { .. } => true,
        _ => false,
    }
}

proof fn lemma_parity_stages_check(ty: ElemTy, stages: Seq<Stage>, i: int)
    requires
        ty != ElemTy::Bool,
        0 <= i <= stages.len(),
        forall|k: int| 0 <= k < stages.len() - 1 ==> parity_or_position(#[trigger] stages[k]),
        stages.len() > 0 ==> parity_or_position(stages.last()) || stages.last() is Reduce,
    ensures
        check_stages_from(ty, false, stages, i) is Ok,
    decreases stages.len() - i,
{
    if i < stages.len() {
        let st = stages[i];
        if let Stage::Filter { pred, span } = st {
            law_parity_checks_exactly_on_integer_streams(pred, ty, span, i as usize);
        }
        if i == stages.len() - 1 {
            assert(check_stages_from(ty, st is Reduce, stages, i + 1) is Ok);
        } else {
            assert(parity_or_position(stages[i]));
            lemma_parity_stages_check(ty, stages, i + 1);
        }
    }
}

/// A program that reads an `i32` or `i64` input and selects elements by `even`/`odd`
/// filters, `take`, `drop` and `id`, with or without a final `reduce` of any kind, passes
/// the type checker.
pub proof fn law_parity_programs_check_on_integer_input(q: Program)
    requires
        q.source matches Source::Input { ty, .. } && ty != ElemTy::Bool,
        forall|k: int| 0 <= k < q.stages@.len() - 1 ==> parity_or_position(#[trigger] q.stages@[k]),
        q.stages@.len() > 0 ==> parity_or_position(q.stages@.last()) || q.stages@.last() is Reduce,
    ensures
        check_program_spec(q) is Ok,
{
    if let Source::Input { ty, .. } = q.source {
        lemma_parity_stages_check(ty, q.stages@, 0);
    }
}

/// The LYTR comparison `l op r` of operands that evaluate to the integers `a` and then `b`.
pub open spec fn lytr_comparison(op: crate::lytr::ast::CmpOp, l: ExprV, r: ExprV, span: Span) -> ExprV {
    ExprV::Cmp { op, left: Box::new(l), right: Box::new(r), span }
}

/// A LYTR comparison whose operands evaluate to the integers `a` and `b` (left first)
/// evaluates to `true` exactly when the comparison holds of `a` and `b` as integers: `==`,
/// `!=`, `<`, `>`, `<=` (true on equal operands) and `>=`.
pub proof fn law_lytr_comparisons_compare_integers(
    env: EnvV,
    l: ExprV,
    r: ExprV,
    span: Span,
    a: i32,
    env1: EnvV,
    b: i32,
    env2: EnvV,
)
    requires
        eval_i32_sp(env, l, span) == Some(Ok::<(i32, EnvV), crate::lytr::error::LytrErrorView>((a, env1))),
        eval_i32_sp(env1, r, span) == Some(Ok::<(i32, EnvV), crate::lytr::error::LytrErrorView>((b, env2))),
    ensures
        eval_sp(env, lytr_comparison(crate::lytr::ast::CmpOp::Eq, l, r, span)) == Some(Ok::<(LytrVal, EnvV), crate::lytr::error::LytrErrorView>((LytrVal::Bool(a == b), env2))),
        eval_sp(env, lytr_comparison(crate::lytr::ast::CmpOp::Ne, l, r, span)) == Some(Ok::<(LytrVal, EnvV), crate::lytr::error::LytrErrorView>((LytrVal::Bool(a != b), env2))),
        eval_sp(env, lytr_comparison(crate::lytr::ast::CmpOp::Lt, l, r, span)) == Some(Ok::<(LytrVal, EnvV), crate::lytr::error::LytrErrorView>((LytrVal::Bool(a < b), env2))),
        eval_sp(env, lytr_comparison(crate::lytr::ast::CmpOp::Gt, l, r, span)) == Some(Ok::<(LytrVal, EnvV), crate::lytr::error::LytrErrorView>((LytrVal::Bool(a > b), env2))),
        eval_sp(env, lytr_comparison(crate::lytr::ast::CmpOp::Le, l, r, span)) == Some(Ok::<(LytrVal, EnvV), crate::lytr::error::LytrErrorView>((LytrVal::Bool(a <= b), env2))),
        eval_sp(env, lytr_comparison(crate::lytr::ast::CmpOp::Ge, l, r, span)) == Some(Ok::<(LytrVal, EnvV), crate::lytr::error::LytrErrorView>((LytrVal::Bool(a >= b), env2))),
{
}

/// The decimal numeral of a natural number reads back as that number.
proof fn lemma_numeral_value(m: nat)
    ensures
        nat_decimal(m).len() >= 1,
        all_digits(nat_decimal(m)),
        !has_sign(nat_decimal(m)),
        crate::lex::digits_value(nat_decimal(m), 0, nat_decimal(m).len() as int) == m,
{
    let d = nat_decimal(m);
    crate::roundtrip::lemma_nat_decimal_digits(m);
    assert(d.subrange(0, d.len() as int) =~= d);
    crate::roundtrip::lemma_digits_value(d, 0, m);
    assert(crate::lex::is_digit(d[0]));
}

/// The decimal numeral of every `i64` value, negative ones included, reads as that value.
proof fn lemma_int_numeral_value(n: int)
    requires
        fits_i64(n),
    ensures
        i64_text_value(int_decimal(n)) == Some(n as i64),
        int_decimal(n) != "true"@,
        int_decimal(n) != "false"@,
{
    reveal_strlit("true");
    reveal_strlit("false");
    let p = int_decimal(n);
    if n < 0 {
        let m = (-n) as nat;
        lemma_numeral_value(m);
        assert(p.drop_first() =~= nat_decimal(m));
        assert(p[0] == '-');
    } else {
        lemma_numeral_value(n as nat);
        assert(crate::lex::is_digit(p[0]));
    }
}

/// Every decimal numeral of an `i32` value, negative ones included, is accepted as an
/// `input:i32` element and read as that value; every numeral of an `i64` value likewise as an
/// `input:i64` element.
pub proof fn law_input_numerals_read_as_their_value(n: int)
    ensures
        fits_i32(n) ==> elem_spec(int_decimal(n), ElemTy::I32) == Ok::<Val, Seq<char>>(Val::I32(n as i32)),
        fits_i64(n) ==> elem_spec(int_decimal(n), ElemTy::I64) == Ok::<Val, Seq<char>>(Val::I64(n as i64)),
        fits_i64(n) && !fits_i32(n) ==> elem_spec(int_decimal(n), ElemTy::I32) is Err,
        elem_spec(int_decimal(n), ElemTy::Bool) is Err,
{
    reveal_strlit("true");
    reveal_strlit("false");
    if fits_i64(n) {
        lemma_int_numeral_value(n);
    } else {
        lemma_int_numeral_not_bool(n);
    }
}

/// Bool elements are the words `true` and `false`, and integer streams refuse them.
pub proof fn law_input_bool_words(ty: ElemTy)
    ensures
        elem_spec("true"@, ElemTy::Bool) == Ok::<Val, Seq<char>>(Val::Bool(true)),
        elem_spec("false"@, ElemTy::Bool) == Ok::<Val, Seq<char>>(Val::Bool(false)),
        ty != ElemTy::Bool ==> elem_spec("true"@, ty) is Err && elem_spec("false"@, ty) is Err,
{
    reveal_strlit("true");
    reveal_strlit("false");
    assert("true"@[0] != "false"@[0]);
}

proof fn lemma_int_numeral_not_bool(n: int)
    ensures
        int_decimal(n) != "true"@,
        int_decimal(n) != "false"@,
{
    reveal_strlit("true");
    reveal_strlit("false");
    let p = int_decimal(n);
    if n < 0 {
        assert(p[0] == '-');
    } else {
        crate::roundtrip::lemma_nat_decimal_digits(n as nat);
        assert(crate::lex::is_digit(p[0]));
    }
}

/// The numeral of a bit.
proof fn lemma_bit_numeral(want: bool)
    ensures
        int_decimal(if want { 1 } else { 0 }) == (if want { "1"@ } else { "0"@ }),
{
    reveal_strlit("1");
    reveal_strlit("0");
    let k: int = if want { 1 } else { 0 };
    assert(int_decimal(k) == nat_decimal(k as nat));
    assert(nat_decimal(k as nat) =~= seq![crate::text::digit_char(k)]);
    assert(int_decimal(k) =~= (if want { "1"@ } else { "0"@ }));
}

/// A filter `eq true` / `eq false` on a bool stream (held as `i8` 1 and 0) is compiled to one
/// `icmp` of the element with a numeral, and that `icmp` holds on an element exactly when the
/// interpreter keeps it. The result is the `icmp` predicate and the numeral's value.
pub proof fn law_compiled_bool_comparison_keeps_what_the_interpreter_keeps(
    s: Emit,
    want: bool,
    span: Span,
    x: Seq<char>,
    b: bool,
) -> (r: (Seq<char>, int))
    ensures
        pred_atom_spec(s, IntWidth::W8, Predicate::Cmp { op: CmpOp::Eq, rhs: CmpRhs::Bool(want), span }, x).0.text
            == s.text + "  %"@ + tname(s.tmp) + " = icmp "@ + r.0 + " i8 "@ + x + ", "@ + int_decimal(r.1) + "\n"@,
        icmp_holds(r.0, if b { 1 } else { 0 }, r.1) <==> eval_pred_spec(
            Predicate::Cmp { op: CmpOp::Eq, rhs: CmpRhs::Bool(want), span },
            Val::Bool(b),
            ElemTy::Bool,
        ) == Ok::<bool, crate::interp::Fault>(true),
{
    lemma_icmp_words();
    reveal_strlit(" = icmp eq ");
    reveal_strlit(" = icmp ");
    reveal_strlit("eq");
    reveal_strlit(" ");
    reveal_strlit("i8");
    reveal_strlit(" i8 ");
    reveal_strlit("1");
    reveal_strlit("0");
    let k: int = if want { 1 } else { 0 };
    lemma_bit_numeral(want);
    assert(" = icmp eq "@ =~= " = icmp "@ + "eq"@ + " "@);
    assert(" "@ + "i8"@ + " "@ =~= " i8 "@);
    let t = tname(s.tmp);
    assert(pred_atom_spec(s, IntWidth::W8, Predicate::Cmp { op: CmpOp::Eq, rhs: CmpRhs::Bool(want), span }, x).0.text
        =~= s.text + "  %"@ + t + " = icmp "@ + "eq"@ + " i8 "@ + x + ", "@ + int_decimal(k) + "\n"@);
    ("eq"@, k)
}

/// Whether `x` is `is_min`-below (at most, for `min`; at least, for `max`) every element of
/// `vs[..i]`.
pub open spec fn bound_of(is_min: bool, x: int, vs: Seq<Val>, i: int) -> bool {
    forall|j: int| 0 <= j < i ==> (if is_min { x <= int_value(#[trigger] vs[j]) } else { x >= int_value(vs[j]) })
}

proof fn lemma_minmax_extreme(is_min: bool, acc: Val, vs: Seq<Val>, ty: ElemTy, i: int, w: int)
    requires
        ty != ElemTy::Bool,
        1 <= i <= vs.len(),
        all_of_ty(vs, ty),
        val_has_ty(acc, ty),
        0 <= w < i,
        int_value(acc) == int_value(vs[w]),
        bound_of(is_min, int_value(acc), vs, i),
    ensures
        minmax_from(is_min, acc, vs, i) matches Ok(r) && val_has_ty(r, ty) && bound_of(is_min, int_value(r), vs, vs.len() as int)
            && exists|j: int| 0 <= j < vs.len() && int_value(#[trigger] vs[j]) == int_value(r),
    decreases vs.len() - i,
{
    if i == vs.len() {
        assert(0 <= w < vs.len() && int_value(vs[w]) == int_value(acc));
    } else {
        assert(val_has_ty(vs[i], ty));
        let a2 = minmax_spec(is_min, acc, vs[i])->0;
        if int_value(a2) == int_value(vs[i]) {
            lemma_minmax_extreme(is_min, a2, vs, ty, i + 1, i);
        } else {
            lemma_minmax_extreme(is_min, a2, vs, ty, i + 1, w);
        }
    }
}

/// `reduce min` (`max`) of a non-empty stream of integers gives one of its elements that is
/// at most (at least) every element, as a value of the stream's type; of an empty stream it
/// stops with `R_REDUCE_EMPTY_MINMAX`. `reduce count` gives the number of elements.
pub proof fn law_reduce_min_max_count(vs: Seq<Val>, ty: ElemTy, span: Span, si: usize)
    requires
        ty != ElemTy::Bool,
        all_of_ty(vs, ty),
    ensures
        vs.len() > 0 ==> (reduce_spec(ReduceOp::Min, vs, ty, span, si) matches Ok(r) && val_has_ty(r, ty)
            && bound_of(true, int_value(r), vs, vs.len() as int)
            && exists|j: int| 0 <= j < vs.len() && int_value(#[trigger] vs[j]) == int_value(r)),
        vs.len() > 0 ==> (reduce_spec(ReduceOp::Max, vs, ty, span, si) matches Ok(r) && val_has_ty(r, ty)
            && bound_of(false, int_value(r), vs, vs.len() as int)
            && exists|j: int| 0 <= j < vs.len() && int_value(#[trigger] vs[j]) == int_value(r)),
        vs.len() == 0 ==> (reduce_spec(ReduceOp::Min, vs, ty, span, si) matches Err(e) && e.code == "R_REDUCE_EMPTY_MINMAX"@),
        vs.len() == 0 ==> (reduce_spec(ReduceOp::Max, vs, ty, span, si) matches Err(e) && e.code == "R_REDUCE_EMPTY_MINMAX"@),
        fits_i32(vs.len() as int) ==> reduce_spec(ReduceOp::Count, vs, ty, span, si) == Ok::<Val, crate::error::ErrorView>(Val::I32(vs.len() as i32)),
{
    if vs.len() > 0 {
        assert(val_has_ty(vs[0], ty));
        lemma_minmax_extreme(true, vs[0], vs, ty, 1, 0);
        lemma_minmax_extreme(false, vs[0], vs, ty, 1, 0);
    }
}

/// A filter predicate that passes the checker on streams of type `ty` evaluates without a
/// type fault on every value of that type.
pub proof fn law_checked_predicates_evaluate(p: Predicate, ty: ElemTy, span: Span, si: usize, v: Val)
    requires
        check_pred_spec(p, ty, span, si) is None,
        val_has_ty(v, ty),
    ensures
        eval_pred_spec(p, v, ty) is Ok,
{
    crate::type_law::lemma_pred_ok(p, v, ty, span, si);
}

/// Which comparisons type-check: on an `i64` stream every comparison with an integer, on an
/// `i32` stream every comparison with an integer that fits `i32`, on a bool stream only
/// `eq true` and `eq false`; a comparison of an integer stream with a bool never does.
pub proof fn law_comparisons_check_on_matching_literals(op: CmpOp, rhs: CmpRhs, cspan: Span, ty: ElemTy, span: Span, si: usize)
    ensures
        (check_pred_spec(Predicate::Cmp { op, rhs, span: cspan }, ty, span, si) is None) <==> match ty {
            ElemTy::I64 => rhs is Int,
            ElemTy::I32 => rhs matches CmpRhs::Int(v) && i32::MIN <= v <= i32::MAX,
            ElemTy::Bool => op == CmpOp::Eq && rhs is Bool,
        },
{
}

/// Division truncates toward zero: the quotient `q` and remainder `r` of `x` by `d != 0` give
/// back `x == q * d + r`, the remainder is smaller than the divisor in size and is zero or
/// has the sign of `x`.
pub proof fn law_division_truncates_toward_zero(x: int, d: int)
    requires
        d != 0,
    ensures
        crate::interp::trunc_div(x, d) * d + crate::interp::trunc_rem(x, d) == x,
        -abs_int(d) < crate::interp::trunc_rem(x, d) < abs_int(d),
        crate::interp::trunc_rem(x, d) == 0 || ((crate::interp::trunc_rem(x, d) < 0) == (x < 0)),
{
    let q = crate::interp::trunc_div(x, d);
    let r = crate::interp::trunc_rem(x, d);
    if x == 0 {
        assert(q * d == 0) by (nonlinear_arith)
            requires q == 0;
    } else if x > 0 && d > 0 {
        vstd::arithmetic::div_mod::lemma_fundamental_div_mod(x, d);
        assert(q * d == d * q) by (nonlinear_arith);
    } else if x < 0 && d < 0 {
        let (a, b) = (x * -1, d * -1);
        vstd::arithmetic::div_mod::lemma_fundamental_div_mod(a, b);
        assert(q * d == -((a / b) * b)) by (nonlinear_arith)
            requires q == a / b, d == -b;
        assert(b * (a / b) == (a / b) * b) by (nonlinear_arith);
        assert(r == (a % b) * -1);
    } else if x < 0 {
        let a = x * -1;
        vstd::arithmetic::div_mod::lemma_fundamental_div_mod(a, d);
        assert(q * d == -((a / d) * d)) by (nonlinear_arith)
            requires q == (a / d) * -1;
        assert(d * (a / d) == (a / d) * d) by (nonlinear_arith);
    } else {
        let b = d * -1;
        vstd::arithmetic::div_mod::lemma_fundamental_div_mod(x, b);
        assert(q * d == (x / b) * b) by (nonlinear_arith)
            requires q == (x / b) * -1, d == -b;
        assert(b * (x / b) == (x / b) * b) by (nonlinear_arith);
    }
}

/// The size of an integer.
pub open spec fn abs_int(x: int) -> int {
    if x < 0 { -x } else { x }
}

/// The LYTR arithmetic `l op r` of operands that evaluate to integers.
pub open spec fn lytr_arith(op: crate::lytr::ast::BinOp, l: ExprV, r: ExprV, span: Span) -> ExprV {
    ExprV::Binary { op, left: Box::new(l), right: Box::new(r), span }
}

/// The outcome that LYTR arithmetic gives when it succeeds with `n`.
pub open spec fn lytr_int(n: int, env: EnvV) -> Option<Result<(LytrVal, EnvV), crate::lytr::error::LytrErrorView>> {
    Some(Ok((LytrVal::I32(n as i32), env)))
}

/// Whether an outcome is the error with `code`.
pub open spec fn lytr_fails_with(o: Option<Result<(LytrVal, EnvV), crate::lytr::error::LytrErrorView>>, code: Seq<char>) -> bool {
    o matches Some(Err(e)) && e.code == code
}

/// LYTR arithmetic on operands that evaluate to the integers `a` and `b` (left first) is
/// checked `i32` arithmetic: `+`, `-` and `*` give the exact result when it fits `i32` and
/// stop with `E_LYTR_OVERFLOW` when it does not; `/` and `%` by zero stop with
/// `E_LYTR_DIV0`; otherwise, except for `i32::MIN / -1` and `i32::MIN % -1`, which abort,
/// `/` gives `q` and `%` gives `r` with `a == q * b + r`, `|r| < |b|`, and `r` zero or of the
/// sign of `a`.
pub proof fn law_lytr_arithmetic_is_checked_i32(
    env: EnvV,
    l: ExprV,
    r: ExprV,
    span: Span,
    a: i32,
    env1: EnvV,
    b: i32,
    env2: EnvV,
)
    requires
        eval_i32_sp(env, l, span) == Some(Ok::<(i32, EnvV), crate::lytr::error::LytrErrorView>((a, env1))),
        eval_i32_sp(env1, r, span) == Some(Ok::<(i32, EnvV), crate::lytr::error::LytrErrorView>((b, env2))),
    ensures
        fits_i32(a + b) ==> eval_sp(env, lytr_arith(crate::lytr::ast::BinOp::Add, l, r, span)) == lytr_int(a + b, env2),
        !fits_i32(a + b) ==> lytr_fails_with(eval_sp(env, lytr_arith(crate::lytr::ast::BinOp::Add, l, r, span)), "E_LYTR_OVERFLOW"@),
        fits_i32(a - b) ==> eval_sp(env, lytr_arith(crate::lytr::ast::BinOp::Sub, l, r, span)) == lytr_int(a - b, env2),
        !fits_i32(a - b) ==> lytr_fails_with(eval_sp(env, lytr_arith(crate::lytr::ast::BinOp::Sub, l, r, span)), "E_LYTR_OVERFLOW"@),
        fits_i32(a * b) ==> eval_sp(env, lytr_arith(crate::lytr::ast::BinOp::Mul, l, r, span)) == lytr_int(a * b, env2),
        !fits_i32(a * b) ==> lytr_fails_with(eval_sp(env, lytr_arith(crate::lytr::ast::BinOp::Mul, l, r, span)), "E_LYTR_OVERFLOW"@),
        b == 0 ==> lytr_fails_with(eval_sp(env, lytr_arith(crate::lytr::ast::BinOp::Div, l, r, span)), "E_LYTR_DIV0"@),
        b == 0 ==> lytr_fails_with(eval_sp(env, lytr_arith(crate::lytr::ast::BinOp::Mod, l, r, span)), "E_LYTR_DIV0"@),
        b == -1 && a == i32::MIN ==> eval_sp(env, lytr_arith(crate::lytr::ast::BinOp::Div, l, r, span)) is None,
        b != 0 && !(b == -1 && a == i32::MIN) ==> exists|q: int, m: int| {
            &&& #[trigger] eval_sp(env, lytr_arith(crate::lytr::ast::BinOp::Div, l, r, span)) == lytr_int(q, env2)
            &&& eval_sp(env, lytr_arith(crate::lytr::ast::BinOp::Mod, l, r, span)) == lytr_int(m, env2)
            &&& a == q * b + m
            &&& -abs_int(b as int) < m < abs_int(b as int)
            &&& (m == 0 || ((m < 0) == (a < 0)))
        },
{
    if b != 0 && !(b == -1 && a == i32::MIN) {
        law_division_truncates_toward_zero(a as int, b as int);
        let q = crate::interp::trunc_div(a as int, b as int);
        let m = crate::interp::trunc_rem(a as int, b as int);
        crate::interp::lemma_divmod_bounds(a as int, b as int, 2147483647);
        assert(eval_sp(env, lytr_arith(crate::lytr::ast::BinOp::Div, l, r, span)) == lytr_int(q, env2));
        assert(eval_sp(env, lytr_arith(crate::lytr::ast::BinOp::Mod, l, r, span)) == lytr_int(m, env2));
    }
}

/// LYTR `if` evaluates its condition and then exactly the branch the condition selects, in
/// the environment the condition left.
pub proof fn law_lytr_if_takes_the_selected_branch(env: EnvV, cond: ExprV, then_b: ExprV, else_b: ExprV, span: Span, c: bool, env1: EnvV)
    requires
        eval_sp(env, cond) == Some(Ok::<(LytrVal, EnvV), crate::lytr::error::LytrErrorView>((LytrVal::Bool(c), env1))),
    ensures
        eval_sp(env, ExprV::If { cond: Box::new(cond), then_b: Box::new(then_b), else_b: Box::new(else_b), span })
            == eval_sp(env1, if c { then_b } else { else_b }),
{
}

/// A LYTR variable reads its latest binding, and `match` on `Ok(p)` (`Err(p)`) runs the
/// `Ok` (`Err`) arm with its name bound to `p`, so an arm that is just that name gives `p`;
/// afterwards the name is unbound again.
pub proof fn law_lytr_match_binds_the_payload(
    env: EnvV,
    scrutinee: ExprV,
    ok_name: Seq<u8>,
    err_name: Seq<u8>,
    vspan: Span,
    span: Span,
    p: i32,
    is_ok: bool,
    env1: EnvV,
)
    requires
        eval_sp(env, scrutinee) == Some(Ok::<(LytrVal, EnvV), crate::lytr::error::LytrErrorView>(
            (if is_ok { LytrVal::ResOk(p) } else { LytrVal::ResErr(p) }, env1),
        )),
    ensures
        eval_sp(
            env,
            ExprV::Match {
                scrutinee: Box::new(scrutinee),
                ok_name,
                ok_arm: Box::new(ExprV::Var { name: ok_name, span: vspan }),
                err_name,
                err_arm: Box::new(ExprV::Var { name: err_name, span: vspan }),
                span,
            },
        ) == Some(Ok::<(LytrVal, EnvV), crate::lytr::error::LytrErrorView>(
            (LytrVal::I32(p), crate::lytr::interp::unbind(env1.push((if is_ok { ok_name } else { err_name }, LytrVal::I32(p))), if is_ok { ok_name } else { err_name })),
        )),
        forall|name: Seq<u8>, v: LytrVal| #[trigger] crate::lytr::interp::lookup_val(env.push((name, v)), name) == Some(v),
{
    assert forall|name: Seq<u8>, v: LytrVal| #[trigger] crate::lytr::interp::lookup_val(env.push((name, v)), name) == Some(v) by {
        assert(env.push((name, v)).last() == (name, v));
    }
    let n = if is_ok { ok_name } else { err_name };
    let e1 = env1.push((n, LytrVal::I32(p)));
    assert(crate::lytr::interp::lookup_val(e1, n) == Some(LytrVal::I32(p))) by {
        assert(e1.last() == (n, LytrVal::I32(p)));
    }
    assert(eval_sp(e1, ExprV::Var { name: n, span: vspan })
        == Some(Ok::<(LytrVal, EnvV), crate::lytr::error::LytrErrorView>((LytrVal::I32(p), e1))));
}

/// The checker's verdict on `&`, `or` and `not` is that of their operands: a compound filter
/// predicate passes exactly when all its operands do.
pub proof fn law_compound_predicates_check_by_their_operands(l: Predicate, r: Predicate, pspan: Span, ty: ElemTy, span: Span, si: usize)
    ensures
        (check_pred_spec(Predicate::And { left: Box::new(l), right: Box::new(r), span: pspan }, ty, span, si) is None)
            <==> (check_pred_spec(l, ty, span, si) is None && check_pred_spec(r, ty, span, si) is None),
        (check_pred_spec(Predicate::Or { left: Box::new(l), right: Box::new(r), span: pspan }, ty, span, si) is None)
            <==> (check_pred_spec(l, ty, span, si) is None && check_pred_spec(r, ty, span, si) is None),
        (check_pred_spec(Predicate::Not { inner: Box::new(l), span: pspan }, ty, span, si) is None)
            <==> (check_pred_spec(l, ty, span, si) is None),
{
}

/// Decimal numerals separated by `", "`.
pub open spec fn joined_numerals(ns: Seq<int>) -> Seq<char>
    decreases ns.len(),
{
    if ns.len() == 0 {
        Seq::empty()
    } else if ns.len() == 1 {
        int_decimal(ns[0])
    } else {
        int_decimal(ns[0]) + seq![',', ' '] + joined_numerals(ns.drop_first())
    }
}

/// The value of an integer `n` in a stream of integer type `ty`.
pub open spec fn num_val(ty: ElemTy, n: int) -> Val {
    if ty == ElemTy::I32 { Val::I32(n as i32) } else { Val::I64(n as i64) }
}

/// A numeral holds neither white space, nor `,`, `[` or `]`.
proof fn lemma_numeral_chars(n: int)
    ensures
        int_decimal(n).len() > 0,
        forall|k: int| 0 <= k < int_decimal(n).len() ==> {
            let c = #[trigger] int_decimal(n)[k];
            !is_ws(c) && c != ',' && c != '[' && c != ']' && c != ' '
        },
{
    let d = int_decimal(n);
    if n < 0 {
        let m = (-n) as nat;
        crate::roundtrip::lemma_nat_decimal_digits(m);
        assert forall|k: int| 0 <= k < d.len() implies {
            let c = #[trigger] d[k];
            !is_ws(c) && c != ',' && c != '[' && c != ']' && c != ' '
        } by {
            if k > 0 {
                assert(d[k] == nat_decimal(m)[k - 1]);
            }
        }
    } else {
        crate::roundtrip::lemma_nat_decimal_digits(n as nat);
    }
}

/// Trimming a numeral, with or without one space in front, leaves the numeral.
proof fn lemma_trim_numeral(n: int, lead: bool)
    ensures
        trim_ws((if lead { seq![' '] } else { Seq::<char>::empty() }) + int_decimal(n)) == int_decimal(n),
{
    let d = int_decimal(n);
    lemma_numeral_chars(n);
    let t = (if lead { seq![' '] } else { Seq::<char>::empty() }) + d;
    assert(t.last() == d.last());
    assert(!is_ws(d[d.len() - 1]));
    assert(trim_end_ws(t) == t);
    assert(!is_ws(d[0]));
    if lead {
        assert(is_ws(t[0]));
        assert(t.drop_first() =~= d);
        assert(trim_start_ws(d) == d);
    } else {
        assert(t =~= d);
    }
}

/// `comma_from` stops at the first comma.
proof fn lemma_comma_at(s: Seq<char>, i: int, e: int)
    requires
        0 <= i <= e <= s.len(),
        forall|k: int| i <= k < e ==> #[trigger] s[k] != ',',
        e == s.len() || s[e] == ',',
    ensures
        comma_from(s, i) == e,
    decreases e - i,
{
    if i < e {
        lemma_comma_at(s, i + 1, e);
    }
}

/// Reading the elements from `i` on, where the rest of `s` is the numerals `ns` (after one
/// space when `lead`).
#[verifier::spinoff_prover]
#[verifier::rlimit(40)]
proof fn lemma_elems_numerals(s: Seq<char>, i: int, ns: Seq<int>, lead: bool, ty: ElemTy)
    requires
        ty != ElemTy::Bool,
        ns.len() > 0,
        forall|k: int| 0 <= k < ns.len() ==> fits_ty(ty, #[trigger] ns[k]),
        0 <= i <= s.len(),
        s.subrange(i, s.len() as int) == (if lead { seq![' '] } else { Seq::<char>::empty() }) + joined_numerals(ns),
    ensures
        elems_from(s, i, ty) == Ok::<Seq<Val>, Seq<char>>(ns.map_values(|n: int| num_val(ty, n))),
    decreases ns.len(),
{
    let d = int_decimal(ns[0]);
    let pre = if lead { seq![' '] } else { Seq::<char>::empty() };
    let off = i + pre.len();
    let j = off + d.len();
    let tail = s.subrange(i, s.len() as int);
    lemma_numeral_chars(ns[0]);
    assert(fits_ty(ty, ns[0]));
    assert(fits_i64(ns[0]));
    lemma_int_numeral_value(ns[0]);
    let rest = if ns.len() == 1 { Seq::<char>::empty() } else { seq![',', ' '] + joined_numerals(ns.drop_first()) };
    assert(joined_numerals(ns) =~= d + rest);
    assert(tail =~= pre + d + rest);
    assert forall|k: int| 0 <= k < d.len() implies s[off + k] == d[k] by {
        assert(s[off + k] == tail[pre.len() + k]);
    }
    assert forall|k: int| i <= k < j implies #[trigger] s[k] != ',' by {
        if k < off {
            assert(s[k] == tail[k - i]);
        } else {
            assert(s[k] == d[k - off]);
        }
    }
    if ns.len() > 1 {
        assert(s[j] == tail[j - i]);
    }
    lemma_comma_at(s, i, j);
    assert(s.subrange(i, j) =~= pre + d);
    lemma_trim_numeral(ns[0], lead);
    let v = num_val(ty, ns[0]);
    assert(elem_spec(d, ty) == Ok::<Val, Seq<char>>(v));
    if ns.len() == 1 {
        assert(ns.map_values(|n: int| num_val(ty, n)) =~= seq![v]);
    } else {
        let ns2 = ns.drop_first();
        assert(s.subrange(j + 1, s.len() as int) =~= seq![' '] + joined_numerals(ns2)) by {
            assert forall|k: int| 0 <= k < s.len() - (j + 1) implies s.subrange(j + 1, s.len() as int)[k]
                == (seq![' '] + joined_numerals(ns2))[k] by {
                assert(s[j + 1 + k] == tail[j + 1 + k - i]);
            }
        }
        lemma_elems_numerals(s, j + 1, ns2, true, ty);
        assert(ns.map_values(|n: int| num_val(ty, n)) =~= seq![v] + ns2.map_values(|n: int| num_val(ty, n)));
    }
}

/// An array of integers written as `[n0, n1, ...]`, each a decimal numeral (negative ones
/// with `-`) of a value of the stream's type, reads as exactly those values, in order; `[]`
/// reads as no values.
pub proof fn law_input_arrays_read_their_numerals(ns: Seq<int>, ty: ElemTy)
    requires
        ty != ElemTy::Bool,
        forall|k: int| 0 <= k < ns.len() ==> fits_ty(ty, #[trigger] ns[k]),
    ensures
        input_array_spec(seq!['['] + joined_numerals(ns) + seq![']'], ty)
            == Ok::<Seq<Val>, Seq<char>>(ns.map_values(|n: int| num_val(ty, n))),
{
    let j = joined_numerals(ns);
    let t = seq!['['] + j + seq![']'];
    assert(t.last() == ']');
    assert(t[0] == '[');
    assert(trim_end_ws(t) == t);
    assert(trim_start_ws(t) == t);
    assert(trim_ws(t) == t);
    assert(t.drop_first() =~= j + seq![']']);
    if ns.len() == 0 {
        assert(j =~= Seq::<char>::empty());
        assert(trim_start_char(seq![']'], '[') == seq![']']);
        assert(seq![']'].drop_last() =~= Seq::<char>::empty());
        assert(trim_end_char(seq![']'], ']') == Seq::<char>::empty());
        assert(ns.map_values(|n: int| num_val(ty, n)) =~= Seq::<Val>::empty());
    } else {
        lemma_numeral_chars(ns[0]);
        let d = int_decimal(ns[0]);
        let rest = if ns.len() == 1 { Seq::<char>::empty() } else { seq![',', ' '] + joined_numerals(ns.drop_first()) };
        assert(j =~= d + rest);
        assert(j[0] == d[0]);
        assert((j + seq![']'])[0] == j[0]);
        assert(trim_start_char(j + seq![']'], '[') == j + seq![']']);
        assert((j + seq![']']).drop_last() =~= j);
        lemma_joined_last(ns);
        assert(trim_end_char(j, ']') == j);
        assert(trim_end_char(j + seq![']'], ']') == j);
        assert(j.subrange(0, j.len() as int) =~= j);
        lemma_elems_numerals(j, 0, ns, false, ty);
        assert(!is_ws(j[0]));
        assert(trim_start_ws(trim_end_ws(j)).len() > 0) by {
            lemma_joined_last(ns);
            assert(trim_end_ws(j) == j);
        }
    }
}

/// A non-empty list of numerals ends in a digit: neither white space nor `]`.
proof fn lemma_joined_last(ns: Seq<int>)
    requires
        ns.len() > 0,
    ensures
        joined_numerals(ns).len() > 0,
        !is_ws(joined_numerals(ns).last()),
        joined_numerals(ns).last() != ']',
    decreases ns.len(),
{
    lemma_numeral_chars(ns[0]);
    let d = int_decimal(ns[0]);
    if ns.len() == 1 {
        assert(d.last() == d[d.len() - 1]);
    } else {
        lemma_joined_last(ns.drop_first());
        let r = joined_numerals(ns.drop_first());
        assert((d + seq![',', ' '] + r).last() == r.last());
    }
}

/// The smallest value of the integer type `ty`.
pub open spec fn min_of_ty(ty: ElemTy) -> int {
    if ty == ElemTy::I32 { i32::MIN as int } else { i64::MIN as int }
}

/// `map` arithmetic on operands that evaluate, at an element, to integers `a` and `b` of the
/// stream's type is checked arithmetic in that type: `add`, `sub`, `mul` and `neg` give the
/// exact result when it fits and overflow when it does not; `div` and `mod` by zero fail
/// with a division by zero, the smallest value divided by -1 overflows, and otherwise `div`
/// gives `q` and `mod` gives `m` with `a == q * b + m`, `|m| < |b|`, and `m` zero or of the
/// sign of `a`.
pub proof fn law_map_arithmetic_is_checked(l: Expr, r: Expr, sp: Span, x: Val, ty: ElemTy, a: int, b: int)
    requires
        ty != ElemTy::Bool,
        fits_ty(ty, a),
        fits_ty(ty, b),
        crate::interp::eval_expr_spec(l, x) == Ok::<Val, crate::interp::Fault>(num_val(ty, a)),
        crate::interp::eval_expr_spec(r, x) == Ok::<Val, crate::interp::Fault>(num_val(ty, b)),
    ensures
        crate::interp::eval_expr_spec(Expr::Add { left: Box::new(l), right: Box::new(r), span: sp }, x)
            == (if fits_ty(ty, a + b) { Ok(num_val(ty, a + b)) } else { Err(crate::interp::Fault::Overflow) }),
        crate::interp::eval_expr_spec(Expr::Sub { left: Box::new(l), right: Box::new(r), span: sp }, x)
            == (if fits_ty(ty, a - b) { Ok(num_val(ty, a - b)) } else { Err(crate::interp::Fault::Overflow) }),
        crate::interp::eval_expr_spec(Expr::Mul { left: Box::new(l), right: Box::new(r), span: sp }, x)
            == (if fits_ty(ty, a * b) { Ok(num_val(ty, a * b)) } else { Err(crate::interp::Fault::Overflow) }),
        crate::interp::eval_expr_spec(Expr::Neg { inner: Box::new(l), span: sp }, x)
            == (if fits_ty(ty, -a) { Ok(num_val(ty, -a)) } else { Err(crate::interp::Fault::Overflow) }),
        b == 0 ==> crate::interp::eval_expr_spec(Expr::Div { left: Box::new(l), right: Box::new(r), span: sp }, x)
            == Err::<Val, crate::interp::Fault>(crate::interp::Fault::DivZero),
        b == 0 ==> crate::interp::eval_expr_spec(Expr::Mod { left: Box::new(l), right: Box::new(r), span: sp }, x)
            == Err::<Val, crate::interp::Fault>(crate::interp::Fault::DivZero),
        a == min_of_ty(ty) && b == -1 ==> crate::interp::eval_expr_spec(Expr::Div { left: Box::new(l), right: Box::new(r), span: sp }, x)
            == Err::<Val, crate::interp::Fault>(crate::interp::Fault::Overflow),
        b != 0 && !(a == min_of_ty(ty) && b == -1) ==> exists|q: int, m: int| #![trigger num_val(ty, q), num_val(ty, m)] {
            &&& fits_ty(ty, q) && fits_ty(ty, m)
            &&& crate::interp::eval_expr_spec(Expr::Div { left: Box::new(l), right: Box::new(r), span: sp }, x) == Ok::<Val, crate::interp::Fault>(num_val(ty, q))
            &&& crate::interp::eval_expr_spec(Expr::Mod { left: Box::new(l), right: Box::new(r), span: sp }, x) == Ok::<Val, crate::interp::Fault>(num_val(ty, m))
            &&& a == q * b + m
            &&& -abs_int(b) < m < abs_int(b)
            &&& (m == 0 || ((m < 0) == (a < 0)))
        },
{
    if b != 0 && !(a == min_of_ty(ty) && b == -1) {
        law_division_truncates_toward_zero(a, b);
        let q = crate::interp::trunc_div(a, b);
        let m = crate::interp::trunc_rem(a, b);
        if ty == ElemTy::I32 {
            crate::interp::lemma_divmod_bounds(a, b, 2147483647);
        } else {
            crate::interp::lemma_divmod_bounds(a, b, 9223372036854775807);
        }
        assert(crate::interp::eval_expr_spec(Expr::Div { left: Box::new(l), right: Box::new(r), span: sp }, x) == Ok::<Val, crate::interp::Fault>(num_val(ty, q)));
        assert(crate::interp::eval_expr_spec(Expr::Mod { left: Box::new(l), right: Box::new(r), span: sp }, x) == Ok::<Val, crate::interp::Fault>(num_val(ty, m)));
    }
}

/// The elements of `s` on which `p` holds, in order.
pub open spec fn kept(p: Predicate, s: Seq<Val>, ty: ElemTy) -> Seq<Val>
    decreases s.len(),
{
    if s.len() == 0 {
        s
    } else {
        (if eval_pred_spec(p, s[0], ty) == Ok::<bool, crate::interp::Fault>(true) { seq![s[0]] } else { Seq::<Val>::empty() })
            + kept(p, s.drop_first(), ty)
    }
}

proof fn lemma_filter_kept(p: Predicate, vs: Seq<Val>, ty: ElemTy, span: Span, si: usize, i: int)
    requires
        0 <= i <= vs.len(),
        forall|k: int| 0 <= k < vs.len() ==> #[trigger] eval_pred_spec(p, vs[k], ty) is Ok,
    ensures
        filter_from(p, vs, ty, span, si, i) == Ok::<Seq<Val>, crate::error::ErrorView>(kept(p, vs.skip(i), ty)),
    decreases vs.len() - i,
{
    if i < vs.len() {
        lemma_filter_kept(p, vs, ty, span, si, i + 1);
        assert(vs.skip(i).drop_first() =~= vs.skip(i + 1));
        assert(vs.skip(i)[0] == vs[i]);
        assert(eval_pred_spec(p, vs[i], ty) is Ok);
    } else {
        assert(vs.skip(i) =~= Seq::<Val>::empty());
    }
}

/// `filter` keeps exactly the elements on which its predicate holds, in order, when the
/// predicate evaluates on every element (as it does on a checked program's stream).
pub proof fn law_filter_keeps_exactly_where_the_predicate_holds(vs: Seq<Val>, ty: ElemTy, pred: Predicate, fspan: Span, si: usize)
    requires
        forall|k: int| 0 <= k < vs.len() ==> #[trigger] eval_pred_spec(pred, vs[k], ty) is Ok,
    ensures
        run_stage_spec(Flow::Stream(vs), ty, Stage::Filter { pred, span: fspan }, si)
            == Ok::<Flow, crate::error::ErrorView>(Flow::Stream(kept(pred, vs, ty))),
{
    lemma_filter_kept(pred, vs, ty, fspan, si, 0);
    assert(vs.skip(0) =~= vs);
}

proof fn lemma_map_images(e: Expr, vs: Seq<Val>, span: Span, si: usize, i: int)
    requires
        0 <= i <= vs.len(),
    ensures
        map_from(e, vs, span, si, i) matches Ok(out) ==> out.len() == vs.len() - i
            && forall|k: int| 0 <= k < out.len() ==> eval_expr_spec(e, vs[i + k]) == Ok::<Val, crate::interp::Fault>(#[trigger] out[k]),
        (forall|k: int| i <= k < vs.len() ==> #[trigger] eval_expr_spec(e, vs[k]) is Ok) ==> map_from(e, vs, span, si, i) is Ok,
    decreases vs.len() - i,
{
    if i < vs.len() {
        lemma_map_images(e, vs, span, si, i + 1);
        if let Ok(y) = eval_expr_spec(e, vs[i]) {
            if let Ok(rest) = map_from(e, vs, span, si, i + 1) {
                let out = seq![y] + rest;
                assert forall|k: int| 0 <= k < out.len() implies eval_expr_spec(e, vs[i + k]) == Ok::<Val, crate::interp::Fault>(#[trigger] out[k]) by {
                    if k > 0 {
                        assert(out[k] == rest[k - 1]);
                        assert(vs[i + k] == vs[(i + 1) + (k - 1)]);
                    }
                }
            }
        }
    }
}

/// `map` replaces each element by the value of its expression at that element, keeping the
/// order, and succeeds when the expression evaluates at every element.
pub proof fn law_map_is_elementwise(vs: Seq<Val>, ty: ElemTy, expr: Expr, mspan: Span, si: usize)
    ensures
        run_stage_spec(Flow::Stream(vs), ty, Stage::MapEach { expr, span: mspan }, si) matches Ok(f) ==> (f matches Flow::Stream(out)
            && out.len() == vs.len()
            && forall|k: int| 0 <= k < vs.len() ==> eval_expr_spec(expr, vs[k]) == Ok::<Val, crate::interp::Fault>(#[trigger] out[k])),
        (forall|k: int| 0 <= k < vs.len() ==> #[trigger] eval_expr_spec(expr, vs[k]) is Ok)
            ==> run_stage_spec(Flow::Stream(vs), ty, Stage::MapEach { expr, span: mspan }, si) is Ok,
{
    lemma_map_images(expr, vs, mspan, si, 0);
    if let Ok(out) = map_from(expr, vs, mspan, si, 0) {
        assert forall|k: int| 0 <= k < vs.len() implies eval_expr_spec(expr, vs[k]) == Ok::<Val, crate::interp::Fault>(#[trigger] out[k]) by {
            assert(vs[0 + k] == vs[k]);
        }
    }
}

proof fn lemma_scan_steps(op: ScanOp, acc: Val, vs: Seq<Val>, span: Span, si: usize, i: int)
    requires
        0 <= i <= vs.len(),
    ensures
        scan_from(op, acc, vs, span, si, i) matches Ok(out) ==> out.len() == vs.len() - i
            && (out.len() > 0 ==> arith_spec(op, acc, vs[i]) == Ok::<Val, crate::interp::Fault>(out[0]))
            && forall|k: int| 0 < k < out.len() ==> arith_spec(op, out[k - 1], vs[i + k]) == Ok::<Val, crate::interp::Fault>(#[trigger] out[k]),
    decreases vs.len() - i,
{
    if i < vs.len() {
        if let Ok(a2) = arith_spec(op, acc, vs[i]) {
            lemma_scan_steps(op, a2, vs, span, si, i + 1);
            if let Ok(rest) = scan_from(op, a2, vs, span, si, i + 1) {
                let out = seq![a2] + rest;
                assert forall|k: int| 0 < k < out.len() implies arith_spec(op, out[k - 1], vs[i + k]) == Ok::<Val, crate::interp::Fault>(#[trigger] out[k]) by {
                    assert(out[k] == rest[k - 1]);
                    assert(vs[i + k] == vs[(i + 1) + (k - 1)]);
                    if k > 1 {
                        assert(out[k - 1] == rest[k - 2]);
                    }
                }
            }
        }
    }
}

/// `scan init, op` gives the running accumulations: its initial value first, then each
/// element combined by `op` with the accumulation before it.
pub proof fn law_scan_accumulates(vs: Seq<Val>, ty: ElemTy, init: i64, op: ScanOp, sspan: Span, si: usize)
    ensures
        run_stage_spec(Flow::Stream(vs), ty, Stage::Scan { init, op, span: sspan }, si) matches Ok(f) ==> (f matches Flow::Stream(out)
            && out.len() == vs.len() + 1
            && (ty != ElemTy::Bool ==> out[0] == num_val(ty, init as int))
            && forall|k: int| 0 <= k < vs.len() ==> arith_spec(op, out[k], vs[k]) == Ok::<Val, crate::interp::Fault>(#[trigger] out[k + 1])),
{
    if let Ok(acc) = crate::interp::scan_init_spec(init, ty, sspan, si) {
        lemma_scan_steps(op, acc, vs, sspan, si, 0);
        if let Ok(rest) = scan_from(op, acc, vs, sspan, si, 0) {
            let out = seq![acc] + rest;
            assert forall|k: int| 0 <= k < vs.len() implies arith_spec(op, out[k], vs[k]) == Ok::<Val, crate::interp::Fault>(#[trigger] out[k + 1]) by {
                assert(out[k + 1] == rest[k]);
                if k > 0 {
                    assert(out[k] == rest[k - 1]);
                    assert(vs[0 + k] == vs[k]);
                }
            }
        }
    }
}

} // verus!
