//! Interpreter of the LYTR 0.1 bootstrap.
//!
//! Values are `i32` integers, booleans and `Ok` / `Err` results carrying an `i32`. Variables
//! live in one environment for the whole run: `let` binds a name, a `match` arm binds its
//! name while the arm is evaluated and unbinds it afterwards (every binding of that name
//! goes). Arithmetic is checked `i32` arithmetic.

use vstd::prelude::*;
use crate::error::Span;
use crate::interp::{trunc_div, trunc_rem};
use crate::lytr::ast::{copy_name, ev, same_name, span_v, BinOp, CmpOp, Expr, ExprV, Program, Stmt, StmtV};
use crate::lytr::error::{lytr_runtime, unknown_variable_message, unknown_variable_spec, LytrError, LytrErrorView};
use crate::lytr::parse::ProgramView;
use crate::text::{int_decimal, push_i64, push_str, push_string, string_of};

verus! {

/// A runtime value.
#[derive(Clone, Copy, Debug, PartialEq, Eq, Structural)]
pub enum Val {
    I32(i32),
    Bool(bool),
    ResOk(i32),
    ResErr(i32),
}

/// The environment as a sequence of bindings; a later binding of a name hides earlier ones.
pub type EnvV = Seq<(Seq<u8>, Val)>;

/// The view of an environment.
pub open spec fn envv(env: Seq<(Vec<u8>, Val)>) -> EnvV {
    env.map_values(|p: (Vec<u8>, Val)| (p.0@, p.1))
}

/// The value bound to `name`: its latest binding.
pub open spec fn lookup_val(env: EnvV, name: Seq<u8>) -> Option<Val>
    decreases env.len(),
{
    if env.len() == 0 {
        None
    } else if env.last().0 == name {
        Some(env.last().1)
    } else {
        lookup_val(env.drop_last(), name)
    }
}

/// The environment without any binding of `name`.
pub open spec fn unbind(env: EnvV, name: Seq<u8>) -> EnvV
    decreases env.len(),
{
    if env.len() == 0 {
        env
    } else if env.last().0 == name {
        unbind(env.drop_last(), name)
    } else {
        unbind(env.drop_last(), name).push(env.last())
    }
}

/// Result of one operator on `a` and `b`; `None` where `i32` division itself overflows
/// (`i32::MIN` divided by -1), which aborts the program.
pub open spec fn binop_spec(op: BinOp, a: i32, b: i32, span: Span) -> Option<Result<i32, LytrErrorView>> {
    let ov = lytr_runtime("E_LYTR_OVERFLOW"@, span, "integer overflow"@, ""@);
    match op {
        BinOp::Add => Some(if i32::MIN <= a + b <= i32::MAX { Ok((a + b) as i32) } else { Err(ov) }),
        BinOp::Sub => Some(if i32::MIN <= a - b <= i32::MAX { Ok((a - b) as i32) } else { Err(ov) }),
        BinOp::Mul => Some(if i32::MIN <= a * b <= i32::MAX { Ok((a * b) as i32) } else { Err(ov) }),
        BinOp::Div => if b == 0 {
            Some(Err(lytr_runtime("E_LYTR_DIV0"@, span, "division by zero"@, ""@)))
        } else if a == i32::MIN && b == -1 {
            None
        } else {
            Some(Ok(trunc_div(a as int, b as int) as i32))
        },
        BinOp::Mod => if b == 0 {
            Some(Err(lytr_runtime("E_LYTR_DIV0"@, span, "modulo by zero"@, ""@)))
        } else if a == i32::MIN && b == -1 {
            None
        } else {
            Some(Ok(trunc_rem(a as int, b as int) as i32))
        },
    }
}

/// Result of a comparison.
pub open spec fn cmp_spec(op: CmpOp, a: i32, b: i32) -> bool {
    match op {
        CmpOp::Eq => a == b,
        CmpOp::Ne => a != b,
        CmpOp::Lt => a < b,
        CmpOp::Gt => a > b,
        CmpOp::Le => a <= b,
        CmpOp::Ge => a >= b,
    }
}

/// Value of an expression in `env` and the environment afterwards (left operand first);
/// `None` where evaluation aborts.
pub open spec fn eval_sp(env: EnvV, e: ExprV) -> Option<Result<(Val, EnvV), LytrErrorView>>
    decreases e, 0int,
{
    match e {
        ExprV::Int { value, .. } => Some(Ok((Val::I32(value), env))),
        ExprV::BoolLit { value, .. } => Some(Ok((Val::Bool(value), env))),
        ExprV::Var { name, span } => match lookup_val(env, name) {
            Some(v) => Some(Ok((v, env))),
            None => Some(Err(lytr_runtime("E_LYTR_RUNTIME"@, span, unknown_variable_spec(name), "internal: typecheck should catch"@))),
        },
        ExprV::Binary { op, left, right, span } => match eval_i32_sp(env, *left, span) {
            None => None,
            Some(Err(x)) => Some(Err(x)),
            Some(Ok((a, env1))) => match eval_i32_sp(env1, *right, span) {
                None => None,
                Some(Err(x)) => Some(Err(x)),
                Some(Ok((b, env2))) => match binop_spec(op, a, b, span) {
                    None => None,
                    Some(Err(x)) => Some(Err(x)),
                    Some(Ok(v)) => Some(Ok((Val::I32(v), env2))),
                },
            },
        },
        ExprV::Cmp { op, left, right, span } => match eval_i32_sp(env, *left, span) {
            None => None,
            Some(Err(x)) => Some(Err(x)),
            Some(Ok((a, env1))) => match eval_i32_sp(env1, *right, span) {
                None => None,
                Some(Err(x)) => Some(Err(x)),
                Some(Ok((b, env2))) => Some(Ok((Val::Bool(cmp_spec(op, a, b)), env2))),
            },
        },
        ExprV::If { cond, then_b, else_b, span } => match eval_sp(env, *cond) {
            None => None,
            Some(Err(x)) => Some(Err(x)),
            Some(Ok((Val::Bool(true), env1))) => eval_sp(env1, *then_b),
            Some(Ok((Val::Bool(false), env1))) => eval_sp(env1, *else_b),
            Some(Ok(_)) => Some(Err(lytr_runtime("E_LYTR_RUNTIME"@, span, "if condition not bool"@, ""@))),
        },
        ExprV::ResOk { inner, .. } => match eval_i32_sp(env, *inner, span_v(*inner)) {
            None => None,
            Some(Err(x)) => Some(Err(x)),
            Some(Ok((i, env1))) => Some(Ok((Val::ResOk(i), env1))),
        },
        ExprV::ResErr { inner, .. } => match eval_i32_sp(env, *inner, span_v(*inner)) {
            None => None,
            Some(Err(x)) => Some(Err(x)),
            Some(Ok((i, env1))) => Some(Ok((Val::ResErr(i), env1))),
        },
        ExprV::Match { scrutinee, ok_name, ok_arm, err_name, err_arm, span } => match eval_sp(env, *scrutinee) {
            None => None,
            Some(Err(x)) => Some(Err(x)),
            Some(Ok((Val::ResOk(p), env1))) => match eval_sp(env1.push((ok_name, Val::I32(p))), *ok_arm) {
                None => None,
                Some(Err(x)) => Some(Err(x)),
                Some(Ok((v, env2))) => Some(Ok((v, unbind(env2, ok_name)))),
            },
            Some(Ok((Val::ResErr(p), env1))) => match eval_sp(env1.push((err_name, Val::I32(p))), *err_arm) {
                None => None,
                Some(Err(x)) => Some(Err(x)),
                Some(Ok((v, env2))) => Some(Ok((v, unbind(env2, err_name)))),
            },
            Some(Ok(_)) => Some(Err(lytr_runtime("E_LYTR_RUNTIME"@, span, "match on non-Result"@, ""@))),
        },
    }
}

/// Value of an expression that must be an `i32`; any other value is a runtime error at `span`.
pub open spec fn eval_i32_sp(env: EnvV, e: ExprV, span: Span) -> Option<Result<(i32, EnvV), LytrErrorView>>
    decreases e, 1int,
{
    match eval_sp(env, e) {
        None => None,
        Some(Err(x)) => Some(Err(x)),
        Some(Ok((Val::I32(i), env1))) => Some(Ok((i, env1))),
        Some(Ok(_)) => Some(Err(lytr_runtime("E_LYTR_RUNTIME"@, span, "expected i32"@, ""@))),
    }
}

/// The environment after the statements before the last one: each `let` evaluates its
/// initializer and binds the name; a `return` there is skipped.
pub open spec fn run_prefix_sp(env: EnvV, s: Seq<StmtV>, k: int) -> Option<Result<EnvV, LytrErrorView>>
    decreases s.len() - 1 - k,
{
    if k >= s.len() - 1 || k < 0 {
        Some(Ok(env))
    } else {
        match s[k] {
            StmtV::Let { name, init, .. } => match eval_sp(env, init) {
                None => None,
                Some(Err(x)) => Some(Err(x)),
                Some(Ok((v, env1))) => run_prefix_sp(env1.push((name, v)), s, k + 1),
            },
            StmtV::Return { .. } => run_prefix_sp(env, s, k + 1),
        }
    }
}

/// Outcome of running `main`: the `i32` value of its final `return`; `None` where the run
/// aborts (an empty body, a final statement that is not `return`, or `i32::MIN / -1`).
pub open spec fn lytr_run_spec(p: ProgramView) -> Option<Result<i32, LytrErrorView>> {
    let s = p.stmts;
    if s.len() == 0 {
        None
    } else {
        match run_prefix_sp(Seq::empty(), s, 0) {
            None => None,
            Some(Err(x)) => Some(Err(x)),
            Some(Ok(env)) => match s.last() {
                StmtV::Let { .. } => None,
                StmtV::Return { expr, .. } => match eval_sp(env, expr) {
                    None => None,
                    Some(Err(x)) => Some(Err(x)),
                    Some(Ok((Val::I32(i), _))) => Some(Ok(i)),
                    Some(Ok((v, _))) => Some(Err(lytr_runtime(
                        "E_LYTR_RUNTIME"@,
                        Span { start: 0, end: 0 },
                        "`main` returned non-i32: "@ + val_debug_spec(v),
                        "return an i32"@,
                    ))),
                },
            },
        }
    }
}

/// How a value is written in diagnostics: `Bool(true)`, `ResOk(5)`, ...
pub open spec fn val_debug_spec(v: Val) -> Seq<char> {
    match v {
        Val::I32(i) => "I32("@ + int_decimal(i as int) + ")"@,
        Val::Bool(b) => if b { "Bool(true)"@ } else { "Bool(false)"@ },
        Val::ResOk(i) => "ResOk("@ + int_decimal(i as int) + ")"@,
        Val::ResErr(i) => "ResErr("@ + int_decimal(i as int) + ")"@,
    }
}

fn val_debug(v: Val) -> (s: String)
    ensures
        s@ == val_debug_spec(v),
{
    let (head, n): (&str, i32) = match v {
        Val::Bool(b) => {
            return string_of(if b { "Bool(true)" } else { "Bool(false)" });
        },
        Val::I32(i) => ("I32(", i),
        Val::ResOk(i) => ("ResOk(", i),
        Val::ResErr(i) => ("ResErr(", i),
    };
    let mut s = string_of(head);
    push_i64(&mut s, n as i64);
    push_str(&mut s, ")");
    s
}

fn overflow(span: Span) -> (e: LytrError)
    ensures
        e@ == lytr_runtime("E_LYTR_OVERFLOW"@, span, "integer overflow"@, ""@),
{
    LytrError::Runtime { code: "E_LYTR_OVERFLOW", span, message: string_of("integer overflow"), fix_hint: string_of("") }
}

fn div_zero(span: Span, is_mod: bool) -> (e: LytrError)
    ensures
        e@ == lytr_runtime("E_LYTR_DIV0"@, span, if is_mod { "modulo by zero"@ } else { "division by zero"@ }, ""@),
{
    LytrError::Runtime {
        code: "E_LYTR_DIV0",
        span,
        message: string_of(if is_mod { "modulo by zero" } else { "division by zero" }),
        fix_hint: string_of(""),
    }
}

fn runtime_error(span: Span, message: &str) -> (e: LytrError)
    ensures
        e@ == lytr_runtime("E_LYTR_RUNTIME"@, span, message@, ""@),
{
    LytrError::Runtime { code: "E_LYTR_RUNTIME", span, message: string_of(message), fix_hint: string_of("") }
}

/// The latest binding of `name`.
fn lookup(env: &Vec<(Vec<u8>, Val)>, name: &Vec<u8>) -> (r: Option<Val>)
    ensures
        r == lookup_val(envv(env@), name@),
{
    let mut k: usize = env.len();
    assert(env@.take(k as int) == env@);
    while k > 0
        invariant
            k <= env@.len(),
            lookup_val(envv(env@.take(k as int)), name@) == lookup_val(envv(env@), name@),
        decreases k,
    {
        proof {
            assert(envv(env@.take(k as int)).drop_last() == envv(env@.take(k - 1)));
        }
        if same_name(&env[k - 1].0, name) {
            return Some(env[k - 1].1);
        }
        k = k - 1;
    }
    None
}

/// Removes every binding of `name`.
fn remove_name(env: &mut Vec<(Vec<u8>, Val)>, name: &Vec<u8>)
    ensures
        envv(final(env)@) == unbind(envv(old(env)@), name@),
{
    let mut kept: Vec<(Vec<u8>, Val)> = Vec::new();
    let mut k: usize = 0;
    let n = env.len();
    while k < n
        invariant
            n == env@.len(),
            k <= n,
            env@ == old(env)@,
            envv(kept@) == unbind(envv(env@.take(k as int)), name@),
        decreases n - k,
    {
        proof {
            assert(envv(env@.take(k + 1)).drop_last() == envv(env@.take(k as int)));
        }
        if !same_name(&env[k].0, name) {
            kept.push((copy_name(&env[k].0), env[k].1));
            proof {
                assert(envv(kept@) == envv(kept@.drop_last()).push(envv(env@.take(k + 1)).last()));
            }
        }
        k = k + 1;
    }
    proof {
        assert(env@.take(n as int) == env@);
    }
    *env = kept;
}

/// Result of one checked operator; `None` for `i32::MIN` divided by -1.
fn apply_binop(op: BinOp, a: i32, b: i32, span: Span) -> (r: Option<Result<i32, LytrError>>)
    ensures
        match (r, binop_spec(op, a, b, span)) {
            (None, None) => true,
            (Some(Ok(v)), Some(Ok(x))) => v == x,
            (Some(Err(e)), Some(Err(x))) => e@ == x,
            _ => false,
        },
{
    match op {
        BinOp::Div | BinOp::Mod => {
            if b == 0 {
                return Some(Err(div_zero(span, op == BinOp::Mod)));
            }
            if a == -2147483648 && b == -1 {
                return None;
            }
            proof {
                crate::interp::lemma_divmod_bounds(a as int, b as int, i32::MAX as int);
            }
            let r = if op == BinOp::Div { a.checked_div(b) } else { a.checked_rem(b) };
            match r {
                Some(v) => Some(Ok(v)),
                None => Some(Err(overflow(span))),
            }
        },
        _ => {
            let r = match op {
                BinOp::Add => a.checked_add(b),
                BinOp::Sub => a.checked_sub(b),
                _ => a.checked_mul(b),
            };
            match r {
                Some(v) => Some(Ok(v)),
                None => Some(Err(overflow(span))),
            }
        },
    }
}

/// Evaluates an expression in `env`; `None` where evaluation aborts.
pub fn eval_expr(e: &Expr, env: &mut Vec<(Vec<u8>, Val)>) -> (r: Option<Result<Val, LytrError>>)
    ensures
        match (r, eval_sp(envv(old(env)@), ev(*e))) {
            (None, None) => true,
            (Some(Ok(v)), Some(Ok((x, env1)))) => v == x && envv(final(env)@) == env1,
            (Some(Err(err)), Some(Err(x))) => err@ == x,
            _ => false,
        },
    decreases e, 0int,
{
    match e {
        Expr::Int { value, .. } => Some(Ok(Val::I32(*value))),
        Expr::BoolLit { value, .. } => Some(Ok(Val::Bool(*value))),
        Expr::Var { name, span } => match lookup(env, name) {
            Some(v) => Some(Ok(v)),
            None => Some(Err(LytrError::Runtime {
                code: "E_LYTR_RUNTIME",
                span: *span,
                message: unknown_variable_message(name),
                fix_hint: string_of("internal: typecheck should catch"),
            })),
        },
        Expr::Binary { op, left, right, span } => {
            let a = match eval_i32(left, env, *span) {
                None => {
                    return None;
                },
                Some(Err(x)) => {
                    return Some(Err(x));
                },
                Some(Ok(a)) => a,
            };
            let b = match eval_i32(right, env, *span) {
                None => {
                    return None;
                },
                Some(Err(x)) => {
                    return Some(Err(x));
                },
                Some(Ok(b)) => b,
            };
            match apply_binop(*op, a, b, *span) {
                None => None,
                Some(Err(x)) => Some(Err(x)),
                Some(Ok(v)) => Some(Ok(Val::I32(v))),
            }
        },
        Expr::Cmp { op, left, right, span } => {
            let a = match eval_i32(left, env, *span) {
                None => {
                    return None;
                },
                Some(Err(x)) => {
                    return Some(Err(x));
                },
                Some(Ok(a)) => a,
            };
            let b = match eval_i32(right, env, *span) {
                None => {
                    return None;
                },
                Some(Err(x)) => {
                    return Some(Err(x));
                },
                Some(Ok(b)) => b,
            };
            let out = match op {
                CmpOp::Eq => a == b,
                CmpOp::Ne => a != b,
                CmpOp::Lt => a < b,
                CmpOp::Gt => a > b,
                CmpOp::Le => a <= b,
                CmpOp::Ge => a >= b,
            };
            Some(Ok(Val::Bool(out)))
        },
        Expr::If { cond, then_b, else_b, span } => match eval_expr(cond, env) {
            None => None,
            Some(Err(x)) => Some(Err(x)),
            Some(Ok(Val::Bool(true))) => eval_expr(then_b, env),
            Some(Ok(Val::Bool(false))) => eval_expr(else_b, env),
            Some(Ok(_)) => Some(Err(runtime_error(*span, "if condition not bool"))),
        },
        Expr::ResOk { inner, .. } => {
            let sp = crate::lytr::parse::lhs_span(inner);
            match eval_i32(inner, env, sp) {
                None => None,
                Some(Err(x)) => Some(Err(x)),
                Some(Ok(i)) => Some(Ok(Val::ResOk(i))),
            }
        },
        Expr::ResErr { inner, .. } => {
            let sp = crate::lytr::parse::lhs_span(inner);
            match eval_i32(inner, env, sp) {
                None => None,
                Some(Err(x)) => Some(Err(x)),
                Some(Ok(i)) => Some(Ok(Val::ResErr(i))),
            }
        },
        Expr::Match { scrutinee, ok_name, ok_arm, err_name, err_arm, span } => match eval_expr(scrutinee, env) {
            None => None,
            Some(Err(x)) => Some(Err(x)),
            Some(Ok(Val::ResOk(p))) => {
                let ghost env1 = envv(env@);
                env.push((copy_name(ok_name), Val::I32(p)));
                assert(envv(env@) == env1.push((ok_name@, Val::I32(p))));
                match eval_expr(ok_arm, env) {
                    None => None,
                    Some(Err(x)) => Some(Err(x)),
                    Some(Ok(v)) => {
                        remove_name(env, ok_name);
                        Some(Ok(v))
                    },
                }
            },
            Some(Ok(Val::ResErr(p))) => {
                let ghost env1 = envv(env@);
                env.push((copy_name(err_name), Val::I32(p)));
                assert(envv(env@) == env1.push((err_name@, Val::I32(p))));
                match eval_expr(err_arm, env) {
                    None => None,
                    Some(Err(x)) => Some(Err(x)),
                    Some(Ok(v)) => {
                        remove_name(env, err_name);
                        Some(Ok(v))
                    },
                }
            },
            Some(Ok(_)) => Some(Err(runtime_error(*span, "match on non-Result"))),
        },
    }
}

/// Evaluates an expression that must give an `i32`.
fn eval_i32(e: &Expr, env: &mut Vec<(Vec<u8>, Val)>, span: Span) -> (r: Option<Result<i32, LytrError>>)
    ensures
        match (r, eval_i32_sp(envv(old(env)@), ev(*e), span)) {
            (None, None) => true,
            (Some(Ok(v)), Some(Ok((x, env1)))) => v == x && envv(final(env)@) == env1,
            (Some(Err(err)), Some(Err(x))) => err@ == x,
            _ => false,
        },
    decreases e, 1int,
{
    match eval_expr(e, env) {
        None => None,
        Some(Err(x)) => Some(Err(x)),
        Some(Ok(Val::I32(i))) => Some(Ok(i)),
        Some(Ok(_)) => Some(Err(runtime_error(span, "expected i32"))),
    }
}

/// Runs `main`; `None` where the run would abort.
fn run_main(prog: &Program) -> (r: Option<Result<i32, LytrError>>)
    ensures
        match (r, lytr_run_spec(prog@)) {
            (None, None) => true,
            (Some(Ok(v)), Some(Ok(x))) => v == x,
            (Some(Err(e)), Some(Err(x))) => e@ == x,
            _ => false,
        },
{
    let stmts = &prog.main.body.stmts;
    let n = stmts.len();
    if n == 0 {
        return None;
    }
    let ghost s = prog@.stmts;
    let mut env: Vec<(Vec<u8>, Val)> = Vec::new();
    let mut k: usize = 0;
    proof {
        assert(envv(env@) == Seq::<(Seq<u8>, Val)>::empty());
    }
    while k < n - 1
        invariant
            n == stmts@.len(),
            n >= 1,
            k <= n - 1,
            s == crate::lytr::ast::svs(stmts@),
            s == prog@.stmts,
            run_prefix_sp(envv(env@), s, k as int) == run_prefix_sp(Seq::empty(), s, 0),
        decreases n - k,
    {
        assert(s[k as int] == crate::lytr::ast::sv(stmts@[k as int]));
        match &stmts[k] {
            Stmt::Let { name, init, .. } => {
                let ghost env0 = envv(env@);
                assert(run_prefix_sp(env0, s, k as int) == match eval_sp(env0, ev(*init)) {
                    None => None,
                    Some(Err(x)) => Some(Err(x)),
                    Some(Ok((v, env1))) => run_prefix_sp(env1.push((name@, v)), s, k + 1),
                });
                match eval_expr(init, &mut env) {
                    None => {
                        assert(run_prefix_sp(Seq::empty(), s, 0) is None);
                        return None;
                    },
                    Some(Err(x)) => {
                        assert(run_prefix_sp(Seq::empty(), s, 0) == Some(Err::<EnvV, LytrErrorView>(x@)));
                        return Some(Err(x));
                    },
                    Some(Ok(v)) => {
                        let ghost env1 = envv(env@);
                        env.push((copy_name(name), v));
                        assert(envv(env@) == env1.push((name@, v)));
                    },
                }
            },
            Stmt::Return { .. } => {},
        }
        k = k + 1;
    }
    assert(s.last() == crate::lytr::ast::sv(stmts@[n - 1]));
    match &stmts[n - 1] {
        Stmt::Let { .. } => None,
        Stmt::Return { expr, .. } => match eval_expr(expr, &mut env) {
            None => None,
            Some(Err(x)) => Some(Err(x)),
            Some(Ok(Val::I32(i))) => Some(Ok(i)),
            Some(Ok(v)) => {
                let mut message = string_of("`main` returned non-i32: ");
                push_string(&mut message, &val_debug(v));
                Some(Err(LytrError::Runtime { code: "E_LYTR_RUNTIME", span: Span::new(0, 0), message, fix_hint: string_of("return an i32") }))
            },
        },
    }
}

/// Runs `main`: the `i32` value of its final `return` expression, after the `let`
/// statements before it have bound their names.
pub fn run_lytr_program(prog: &Program) -> (r: Result<i32, LytrError>)
    requires
        lytr_run_spec(prog@) is Some,
    ensures
        match (r, lytr_run_spec(prog@)->0) {
            (Ok(v), Ok(x)) => v == x,
            (Err(e), Err(x)) => e@ == x,
            _ => false,
        },
{
    match run_main(prog) {
        Some(r) => r,
        // Not reached: the precondition rules out a run that aborts.
        None => Err(runtime_error(Span::new(0, 0), "aborted")),
    }
}

/// Whether running `main` would abort rather than return: an empty body, a body that does
/// not end with `return`, or an `i32::MIN` divided by -1 on the way.
pub fn evaluation_aborts(prog: &Program) -> (b: bool)
    ensures
        b == (lytr_run_spec(prog@) is None),
{
    run_main(prog).is_none()
}

} // verus!
