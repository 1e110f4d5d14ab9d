//! What the check of a LYTR program guarantees of its run.

use vstd::prelude::*;
use crate::lytr::ast::{ExprV, StmtV};
use crate::lytr::error::LytrErrorView;
use crate::lytr::interp::{eval_i32_sp, eval_sp, lookup_val, lytr_run_spec, run_prefix_sp, unbind, EnvV, Val};
use crate::lytr::parse::ProgramView;
use crate::lytr::types::{check_stmts_sp, expect_ty, lookup_ty, lytr_check_spec, type_of, Ty, TyEnv};

verus! {

/// The type of a value.
pub open spec fn ty_of_val(v: Val) -> Ty {
    match v {
        Val::I32(_) => Ty::I32,
        Val::Bool(_) => Ty::Bool,
        Val::ResOk(_) => Ty::Res,
        Val::ResErr(_) => Ty::Res,
    }
}

/// Every name that has both a value and a type has a value of that type.
pub open spec fn env_typed(tenv: TyEnv, env: EnvV) -> bool {
    forall|n: Seq<u8>|
        (#[trigger] lookup_val(env, n)) is Some && lookup_ty(tenv, n) is Some ==> ty_of_val(lookup_val(env, n)->0)
            == lookup_ty(tenv, n)->0
}

/// `after` binds no name that `before` does not bind to the same value.
pub open spec fn only_unbinds(before: EnvV, after: EnvV) -> bool {
    forall|n: Seq<u8>| (#[trigger] lookup_val(after, n)) is None || lookup_val(after, n) == lookup_val(before, n)
}

/// The ways in which the run of a checked program may still stop: overflow, division by
/// zero, or a name that a `match` arm has unbound.
pub open spec fn checked_run_error(x: LytrErrorView) -> bool {
    ||| x.code == "E_LYTR_OVERFLOW"@
    ||| x.code == "E_LYTR_DIV0"@
    ||| (x.code == "E_LYTR_RUNTIME"@ && x.fix_hint == "internal: typecheck should catch"@)
}

proof fn lemma_lookup_push(env: EnvV, x: Seq<u8>, v: Val, n: Seq<u8>)
    ensures
        lookup_val(env.push((x, v)), n) == if n == x { Some(v) } else { lookup_val(env, n) },
{
    assert(env.push((x, v)).drop_last() =~= env);
}

proof fn lemma_lookup_ty_push(tenv: TyEnv, x: Seq<u8>, t: Ty, n: Seq<u8>)
    ensures
        lookup_ty(tenv.push((x, t)), n) == if n == x { Some(t) } else { lookup_ty(tenv, n) },
{
    assert(tenv.push((x, t)).drop_last() =~= tenv);
}

proof fn lemma_lookup_unbind(env: EnvV, x: Seq<u8>, n: Seq<u8>)
    ensures
        lookup_val(unbind(env, x), n) == if n == x { None } else { lookup_val(env, n) },
    decreases env.len(),
{
    if env.len() > 0 {
        lemma_lookup_unbind(env.drop_last(), x, n);
        if env.last().0 != x {
            lemma_lookup_push(unbind(env.drop_last(), x), env.last().0, env.last().1, n);
        }
    }
}

proof fn lemma_typed_push(tenv: TyEnv, env: EnvV, x: Seq<u8>, v: Val)
    requires
        env_typed(tenv, env),
    ensures
        env_typed(tenv.push((x, ty_of_val(v))), env.push((x, v))),
{
    assert forall|n: Seq<u8>|
        (#[trigger] lookup_val(env.push((x, v)), n)) is Some && lookup_ty(tenv.push((x, ty_of_val(v))), n) is Some implies ty_of_val(
            lookup_val(env.push((x, v)), n)->0,
        ) == lookup_ty(tenv.push((x, ty_of_val(v))), n)->0 by {
        lemma_lookup_push(env, x, v, n);
        lemma_lookup_ty_push(tenv, x, ty_of_val(v), n);
        if n != x {
            assert(lookup_val(env, n) is Some);
        }
    }
}

proof fn lemma_typed_shrink(tenv: TyEnv, env: EnvV, env2: EnvV)
    requires
        env_typed(tenv, env),
        only_unbinds(env, env2),
    ensures
        env_typed(tenv, env2),
{
    assert forall|n: Seq<u8>|
        (#[trigger] lookup_val(env2, n)) is Some && lookup_ty(tenv, n) is Some implies ty_of_val(lookup_val(env2, n)->0)
            == lookup_ty(tenv, n)->0 by {
        assert(lookup_val(env2, n) == lookup_val(env, n));
    }
}

/// Evaluating a well-typed expression in a well-typed environment gives a value of its type,
/// and the environment afterwards binds no more than before.
#[verifier::spinoff_prover]
#[verifier::rlimit(40)]
proof fn lemma_eval_sound(tenv: TyEnv, env: EnvV, e: ExprV)
    requires
        env_typed(tenv, env),
        type_of(tenv, e) is Ok,
    ensures
        match eval_sp(env, e) {
            None => true,
            Some(Ok((v, env2))) => ty_of_val(v) == type_of(tenv, e)->Ok_0 && only_unbinds(env, env2),
            Some(Err(x)) => checked_run_error(x),
        },
    decreases e, 0int,
{
    match e {
        ExprV::Int { .. } => {},
        ExprV::BoolLit { .. } => {},
        ExprV::Var { name, .. } => {},
        ExprV::Binary { left, right, span, .. } => {
            lemma_eval_i32_sound(tenv, env, *left, span);
            if let Some(Ok((a, env1))) = eval_i32_sp(env, *left, span) {
                lemma_typed_shrink(tenv, env, env1);
                lemma_eval_i32_sound(tenv, env1, *right, span);
            }
        },
        ExprV::Cmp { left, right, span, .. } => {
            lemma_eval_i32_sound(tenv, env, *left, span);
            if let Some(Ok((a, env1))) = eval_i32_sp(env, *left, span) {
                lemma_typed_shrink(tenv, env, env1);
                lemma_eval_i32_sound(tenv, env1, *right, span);
            }
        },
        ExprV::If { cond, then_b, else_b, .. } => {
            assert(expect_ty(tenv, *cond, Ty::Bool) is Ok);
            assert(type_of(tenv, *cond) == Ok::<Ty, LytrErrorView>(Ty::Bool));
            lemma_eval_sound(tenv, env, *cond);
            if let Some(Ok((c, env1))) = eval_sp(env, *cond) {
                lemma_typed_shrink(tenv, env, env1);
                lemma_eval_sound(tenv, env1, *then_b);
                lemma_eval_sound(tenv, env1, *else_b);
            }
        },
        ExprV::ResOk { inner, .. } => {
            lemma_eval_i32_sound(tenv, env, *inner, crate::lytr::ast::span_v(*inner));
        },
        ExprV::ResErr { inner, .. } => {
            lemma_eval_i32_sound(tenv, env, *inner, crate::lytr::ast::span_v(*inner));
        },
        ExprV::Match { scrutinee, ok_name, ok_arm, err_name, err_arm, .. } => {
            assert(expect_ty(tenv, *scrutinee, Ty::Res) is Ok);
            assert(type_of(tenv, *scrutinee) == Ok::<Ty, LytrErrorView>(Ty::Res));
            lemma_eval_sound(tenv, env, *scrutinee);
            if let Some(Ok((c, env1))) = eval_sp(env, *scrutinee) {
                lemma_typed_shrink(tenv, env, env1);
                match c {
                    Val::ResOk(p) => {
                        lemma_match_arm(tenv, env, env1, ok_name, p, *ok_arm);
                    },
                    Val::ResErr(p) => {
                        lemma_match_arm(tenv, env, env1, err_name, p, *err_arm);
                    },
                    _ => {},
                }
            }
        },
    }
}

/// A `match` arm evaluated with its name bound to an `i32`, then the name unbound.
proof fn lemma_match_arm(tenv: TyEnv, env: EnvV, env1: EnvV, x: Seq<u8>, p: i32, arm: ExprV)
    requires
        env_typed(tenv, env1),
        only_unbinds(env, env1),
        type_of(tenv.push((x, Ty::I32)), arm) is Ok,
    ensures
        match eval_sp(env1.push((x, Val::I32(p))), arm) {
            None => true,
            Some(Ok((v, env2))) => ty_of_val(v) == type_of(tenv.push((x, Ty::I32)), arm)->Ok_0 && only_unbinds(
                env,
                unbind(env2, x),
            ),
            Some(Err(e)) => checked_run_error(e),
        },
    decreases arm, 2int,
{
    lemma_typed_push(tenv, env1, x, Val::I32(p));
    lemma_eval_sound(tenv.push((x, Ty::I32)), env1.push((x, Val::I32(p))), arm);
    if let Some(Ok((v, env2))) = eval_sp(env1.push((x, Val::I32(p))), arm) {
        assert forall|n: Seq<u8>| (#[trigger] lookup_val(unbind(env2, x), n)) is None || lookup_val(unbind(env2, x), n) == lookup_val(env, n) by {
            lemma_lookup_unbind(env2, x, n);
            lemma_lookup_push(env1, x, Val::I32(p), n);
            assert(lookup_val(env2, n) is None || lookup_val(env2, n) == lookup_val(env1.push((x, Val::I32(p))), n));
            assert(lookup_val(env1, n) is None || lookup_val(env1, n) == lookup_val(env, n));
        }
    }
}

/// The `i32` variant of [`lemma_eval_sound`].
proof fn lemma_eval_i32_sound(tenv: TyEnv, env: EnvV, e: ExprV, span: crate::error::Span)
    requires
        env_typed(tenv, env),
        expect_ty(tenv, e, Ty::I32) is Ok,
    ensures
        match eval_i32_sp(env, e, span) {
            None => true,
            Some(Ok((v, env2))) => only_unbinds(env, env2),
            Some(Err(x)) => checked_run_error(x),
        },
    decreases e, 1int,
{
    assert(type_of(tenv, e) == Ok::<Ty, LytrErrorView>(Ty::I32));
    lemma_eval_sound(tenv, env, e);
}

/// The prefix of `let`s of a checked body, run in a well-typed environment, leaves a
/// well-typed environment for the final `return`.
proof fn lemma_prefix_sound(tenv: TyEnv, env: EnvV, s: Seq<StmtV>, k: int)
    requires
        0 <= k < s.len(),
        env_typed(tenv, env),
        check_stmts_sp(tenv, s, k) is Ok,
    ensures
        match run_prefix_sp(env, s, k) {
            None => true,
            Some(Ok(env2)) => exists|tenv2: TyEnv| env_typed(tenv2, env2) && #[trigger] check_stmts_sp(tenv2, s, s.len() - 1) is Ok,
            Some(Err(x)) => checked_run_error(x),
        },
    decreases s.len() - k,
{
    if k == s.len() - 1 {
        assert(env_typed(tenv, env) && check_stmts_sp(tenv, s, s.len() - 1) is Ok);
    } else {
        match s[k] {
            StmtV::Let { name, init, .. } => {
                lemma_eval_sound(tenv, env, init);
                if let Some(Ok((v, env1))) = eval_sp(env, init) {
                    lemma_typed_shrink(tenv, env, env1);
                    lemma_typed_push(tenv, env1, name, v);
                    lemma_prefix_sound(tenv.push((name, ty_of_val(v))), env1.push((name, v)), s, k + 1);
                }
            },
            StmtV::Return { .. } => {},
        }
    }
}

/// A program that passes the check never stops on a value of the wrong type: its run
/// aborts (`i32::MIN / -1`), returns its `i32`, or stops with an overflow, a division by
/// zero, or a name that a `match` arm has unbound.
pub proof fn law_checked_programs_do_not_go_wrong(p: ProgramView)
    requires
        lytr_check_spec(p) is Ok,
    ensures
        lytr_run_spec(p) matches Some(Err(x)) ==> checked_run_error(x),
{
    let s = p.stmts;
    assert(env_typed(Seq::empty(), Seq::empty()));
    lemma_prefix_sound(Seq::empty(), Seq::empty(), s, 0);
    if let Some(Ok(env2)) = run_prefix_sp(Seq::empty(), s, 0) {
        let tenv2 = choose|tenv2: TyEnv| env_typed(tenv2, env2) && #[trigger] check_stmts_sp(tenv2, s, s.len() - 1) is Ok;
        if let StmtV::Return { expr, .. } = s.last() {
            assert(expect_ty(tenv2, expr, Ty::I32) is Ok);
            lemma_eval_sound(tenv2, env2, expr);
        }
    }
}

} // verus!
