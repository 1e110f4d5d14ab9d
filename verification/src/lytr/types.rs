//! Type checking of the LYTR 0.1 bootstrap.
//!
//! Types are `i32`, `bool` and `Result` (an `Ok` or `Err` carrying an `i32`). The body of
//! `main` is a run of `let` statements ending in `return <expr>;` whose expression is an
//! `i32`. A `let` makes its name visible to the statements after it; a `match` arm sees its
//! bound name as an `i32`. Arithmetic and comparisons take `i32` operands, an `if`
//! condition is a `bool`, both branches of an `if` and both arms of a `match` have one type.

use vstd::prelude::*;
use crate::error::Span;
use crate::lytr::ast::{copy_name, ev, same_name, span_v, stmt_span_v, sv, svs, Expr, ExprV, Program, Stmt, StmtV};
use crate::lytr::error::{lytr_type, unknown_variable_message, unknown_variable_spec, LytrError, LytrErrorView};
use crate::lytr::parse::{lhs_span, ProgramView};
use crate::text::string_of;

verus! {

/// A LYTR type.
#[derive(Clone, Copy, Debug, PartialEq, Eq, Structural)]
pub enum Ty {
    I32,
    Bool,
    Res,
}

/// Types of the names in scope; a later entry for a name hides earlier ones.
pub type TyEnv = Seq<(Seq<u8>, Ty)>;

/// The view of a type environment.
pub open spec fn tenvv(env: Seq<(Vec<u8>, Ty)>) -> TyEnv {
    env.map_values(|p: (Vec<u8>, Ty)| (p.0@, p.1))
}

/// The type of `name`: its latest entry.
pub open spec fn lookup_ty(env: TyEnv, name: Seq<u8>) -> Option<Ty>
    decreases env.len(),
{
    if env.len() == 0 {
        None
    } else if env.last().0 == name {
        Some(env.last().1)
    } else {
        lookup_ty(env.drop_last(), name)
    }
}

/// A type diagnostic at `span`.
pub open spec fn type_err(span: Span, message: Seq<char>, fix_hint: Seq<char>) -> LytrErrorView {
    lytr_type("E_LYTR_TYPE"@, span, message, fix_hint)
}

/// The message for an expression of another type than `want`.
pub open spec fn expected_spec(want: Ty) -> Seq<char> {
    match want {
        Ty::I32 => "expected i32"@,
        Ty::Bool => "expected bool"@,
        Ty::Res => "expected a Result"@,
    }
}

/// The type of an expression in `env`, or the first type error in it (left to right).
pub open spec fn type_of(env: TyEnv, e: ExprV) -> Result<Ty, LytrErrorView>
    decreases e, 0int,
{
    match e {
        ExprV::Int { .. } => Ok(Ty::I32),
        ExprV::BoolLit { .. } => Ok(Ty::Bool),
        ExprV::Var { name, span } => match lookup_ty(env, name) {
            Some(t) => Ok(t),
            None => Err(type_err(span, unknown_variable_spec(name), "bind it with `let` first"@)),
        },
        ExprV::Binary { left, right, .. } => match expect_ty(env, *left, Ty::I32) {
            Err(x) => Err(x),
            Ok(_) => match expect_ty(env, *right, Ty::I32) {
                Err(x) => Err(x),
                Ok(_) => Ok(Ty::I32),
            },
        },
        ExprV::Cmp { left, right, .. } => match expect_ty(env, *left, Ty::I32) {
            Err(x) => Err(x),
            Ok(_) => match expect_ty(env, *right, Ty::I32) {
                Err(x) => Err(x),
                Ok(_) => Ok(Ty::Bool),
            },
        },
        ExprV::If { cond, then_b, else_b, span } => match expect_ty(env, *cond, Ty::Bool) {
            Err(x) => Err(x),
            Ok(_) => match type_of(env, *then_b) {
                Err(x) => Err(x),
                Ok(t1) => match type_of(env, *else_b) {
                    Err(x) => Err(x),
                    Ok(t2) => if t1 == t2 { Ok(t1) } else { Err(type_err(span, "`if` branches have different types"@, ""@)) },
                },
            },
        },
        ExprV::ResOk { inner, .. } => match expect_ty(env, *inner, Ty::I32) {
            Err(x) => Err(x),
            Ok(_) => Ok(Ty::Res),
        },
        ExprV::ResErr { inner, .. } => match expect_ty(env, *inner, Ty::I32) {
            Err(x) => Err(x),
            Ok(_) => Ok(Ty::Res),
        },
        ExprV::Match { scrutinee, ok_name, ok_arm, err_name, err_arm, span } => match expect_ty(env, *scrutinee, Ty::Res) {
            Err(x) => Err(x),
            Ok(_) => match type_of(env.push((ok_name, Ty::I32)), *ok_arm) {
                Err(x) => Err(x),
                Ok(t1) => match type_of(env.push((err_name, Ty::I32)), *err_arm) {
                    Err(x) => Err(x),
                    Ok(t2) => if t1 == t2 { Ok(t1) } else { Err(type_err(span, "`match` arms have different types"@, ""@)) },
                },
            },
        },
    }
}

/// An expression of type `want`; another type is an error at the expression's span.
pub open spec fn expect_ty(env: TyEnv, e: ExprV, want: Ty) -> Result<(), LytrErrorView>
    decreases e, 1int,
{
    match type_of(env, e) {
        Err(x) => Err(x),
        Ok(t) => if t == want { Ok(()) } else { Err(type_err(span_v(e), expected_spec(want), ""@)) },
    }
}

/// Checks the statements from `k` on: `let`s, then a final `return` of an `i32`. A `return`
/// before the last statement is an error spanning the statements after it.
pub open spec fn check_stmts_sp(env: TyEnv, s: Seq<StmtV>, k: int) -> Result<(), LytrErrorView>
    decreases s.len() - k,
{
    if k < 0 || k >= s.len() {
        Ok(())
    } else if k == s.len() - 1 {
        match s[k] {
            StmtV::Return { expr, .. } => expect_ty(env, expr, Ty::I32),
            StmtV::Let { span, .. } => Err(type_err(span, "`main` must end with `return <expr>;`"@, "add a return statement"@)),
        }
    } else {
        match s[k] {
            StmtV::Let { name, init, .. } => match type_of(env, init) {
                Err(x) => Err(x),
                Ok(t) => check_stmts_sp(env.push((name, t)), s, k + 1),
            },
            StmtV::Return { .. } => Err(type_err(
                Span { start: stmt_span_v(s[k + 1]).start, end: stmt_span_v(s.last()).end },
                "statements after `return` are not allowed"@,
                "end `main` with its only `return`"@,
            )),
        }
    }
}

/// Outcome of checking a program.
pub open spec fn lytr_check_spec(p: ProgramView) -> Result<(), LytrErrorView> {
    if p.stmts.len() == 0 {
        Err(type_err(p.body_span, "`main` body must contain `return <expr>;`"@, "add a return statement"@))
    } else {
        check_stmts_sp(Seq::empty(), p.stmts, 0)
    }
}

fn type_error(span: Span, message: &str) -> (e: LytrError)
    ensures
        e@ == type_err(span, message@, ""@),
{
    LytrError::Type { code: "E_LYTR_TYPE", span, message: string_of(message), fix_hint: string_of("") }
}

/// The type of the latest entry for `name`.
fn lookup(env: &Vec<(Vec<u8>, Ty)>, name: &Vec<u8>) -> (r: Option<Ty>)
    ensures
        r == lookup_ty(tenvv(env@), name@),
{
    let mut k: usize = env.len();
    assert(env@.take(k as int) == env@);
    while k > 0
        invariant
            k <= env@.len(),
            lookup_ty(tenvv(env@.take(k as int)), name@) == lookup_ty(tenvv(env@), name@),
        decreases k,
    {
        proof {
            assert(tenvv(env@.take(k as int)).drop_last() == tenvv(env@.take(k - 1)));
        }
        if same_name(&env[k - 1].0, name) {
            return Some(env[k - 1].1);
        }
        k = k - 1;
    }
    None
}

/// Type of an expression.
#[verifier::rlimit(50)]
fn type_expr(e: &Expr, env: &mut Vec<(Vec<u8>, Ty)>) -> (r: Result<Ty, LytrError>)
    ensures
        final(env)@ == old(env)@,
        match (r, type_of(tenvv(old(env)@), ev(*e))) {
            (Ok(t), Ok(x)) => t == x,
            (Err(err), Err(x)) => err@ == x,
            _ => false,
        },
    decreases e, 0int,
{
    match e {
        Expr::Int { .. } => Ok(Ty::I32),
        Expr::BoolLit { .. } => Ok(Ty::Bool),
        Expr::Var { name, span } => match lookup(env, name) {
            Some(t) => Ok(t),
            None => Err(LytrError::Type {
                code: "E_LYTR_TYPE",
                span: *span,
                message: unknown_variable_message(name),
                fix_hint: string_of("bind it with `let` first"),
            }),
        },
        Expr::Binary { left, right, .. } => {
            expect(left, env, Ty::I32)?;
            expect(right, env, Ty::I32)?;
            Ok(Ty::I32)
        },
        Expr::Cmp { left, right, .. } => {
            expect(left, env, Ty::I32)?;
            expect(right, env, Ty::I32)?;
            Ok(Ty::Bool)
        },
        Expr::If { cond, then_b, else_b, span } => {
            expect(cond, env, Ty::Bool)?;
            let t1 = type_expr(then_b, env)?;
            let t2 = type_expr(else_b, env)?;
            if t1 == t2 {
                Ok(t1)
            } else {
                Err(type_error(*span, "`if` branches have different types"))
            }
        },
        Expr::ResOk { inner, .. } => {
            expect(inner, env, Ty::I32)?;
            Ok(Ty::Res)
        },
        Expr::ResErr { inner, .. } => {
            expect(inner, env, Ty::I32)?;
            Ok(Ty::Res)
        },
        Expr::Match { scrutinee, ok_name, ok_arm, err_name, err_arm, span } => {
            expect(scrutinee, env, Ty::Res)?;
            let t1 = type_arm(ok_arm, ok_name, env)?;
            let t2 = type_arm(err_arm, err_name, env)?;
            if t1 == t2 {
                Ok(t1)
            } else {
                Err(type_error(*span, "`match` arms have different types"))
            }
        },
    }
}

/// Type of a `match` arm, which sees `name` as an `i32`.
fn type_arm(arm: &Expr, name: &Vec<u8>, env: &mut Vec<(Vec<u8>, Ty)>) -> (r: Result<Ty, LytrError>)
    ensures
        final(env)@ == old(env)@,
        match (r, type_of(tenvv(old(env)@).push((name@, Ty::I32)), ev(*arm))) {
            (Ok(t), Ok(x)) => t == x,
            (Err(err), Err(x)) => err@ == x,
            _ => false,
        },
    decreases arm, 1int,
{
    let ghost env0 = env@;
    env.push((copy_name(name), Ty::I32));
    assert(tenvv(env@) == tenvv(env0).push((name@, Ty::I32)));
    let r = type_expr(arm, env);
    env.pop();
    assert(env@ == env0);
    r
}

/// Checks that an expression has type `want`.
fn expect(e: &Expr, env: &mut Vec<(Vec<u8>, Ty)>, want: Ty) -> (r: Result<(), LytrError>)
    ensures
        final(env)@ == old(env)@,
        match (r, expect_ty(tenvv(old(env)@), ev(*e), want)) {
            (Ok(_), Ok(_)) => true,
            (Err(err), Err(x)) => err@ == x,
            _ => false,
        },
    decreases e, 1int,
{
    let t = type_expr(e, env)?;
    if t == want {
        Ok(())
    } else {
        let message = match want {
            Ty::I32 => "expected i32",
            Ty::Bool => "expected bool",
            Ty::Res => "expected a Result",
        };
        Err(type_error(lhs_span(e), message))
    }
}

/// Checks a parsed program: `let` statements, then `return` of an `i32` expression.
pub fn check_lytr_program(prog: &Program) -> (r: Result<(), LytrError>)
    ensures
        match (r, lytr_check_spec(prog@)) {
            (Ok(_), Ok(_)) => true,
            (Err(e), Err(x)) => e@ == x,
            _ => false,
        },
{
    let stmts = &prog.main.body.stmts;
    let n = stmts.len();
    if n == 0 {
        return Err(LytrError::Type {
            code: "E_LYTR_TYPE",
            span: prog.main.body.span,
            message: string_of("`main` body must contain `return <expr>;`"),
            fix_hint: string_of("add a return statement"),
        });
    }
    let ghost s = prog@.stmts;
    let mut env: Vec<(Vec<u8>, Ty)> = Vec::new();
    let mut k: usize = 0;
    proof {
        assert(tenvv(env@) == Seq::<(Seq<u8>, Ty)>::empty());
    }
    while k < n - 1
        invariant
            n == stmts@.len(),
            n >= 1,
            k <= n - 1,
            s == svs(stmts@),
            s == prog@.stmts,
            check_stmts_sp(tenvv(env@), s, k as int) == check_stmts_sp(Seq::empty(), s, 0),
        decreases n - k,
    {
        assert(s[k as int] == sv(stmts@[k as int]));
        match &stmts[k] {
            Stmt::Let { name, init, .. } => {
                let t = type_expr(init, &mut env)?;
                let ghost env1 = tenvv(env@);
                env.push((copy_name(name), t));
                assert(tenvv(env@) == env1.push((name@, t)));
            },
            Stmt::Return { .. } => {
                assert(s[k + 1] == sv(stmts@[k + 1]));
                assert(s.last() == sv(stmts@[n - 1]));
                return Err(LytrError::Type {
                    code: "E_LYTR_TYPE",
                    span: Span::new(stmts[k + 1].span().start, stmts[n - 1].span().end),
                    message: string_of("statements after `return` are not allowed"),
                    fix_hint: string_of("end `main` with its only `return`"),
                });
            },
        }
        k = k + 1;
    }
    assert(s[n - 1] == sv(stmts@[n - 1]));
    match &stmts[n - 1] {
        Stmt::Let { span, .. } => Err(LytrError::Type {
            code: "E_LYTR_TYPE",
            span: *span,
            message: string_of("`main` must end with `return <expr>;`"),
            fix_hint: string_of("add a return statement"),
        }),
        Stmt::Return { expr, .. } => expect(expr, &mut env, Ty::I32),
    }
}

} // verus!
