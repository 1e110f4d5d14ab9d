//! Abstract syntax of a LYTR 0.1 bootstrap program: a single `main` that binds values with
//! `let` and returns an integer expression built from literals, variables, arithmetic,
//! comparisons, `if`, `Ok` / `Err` and `match`.

use vstd::prelude::*;
use crate::error::Span;

verus! {

/// A whole program: its span and its `main` function.
#[derive(Clone, Debug, PartialEq, Eq)]
pub struct Program {
    pub span: Span,
    pub main: FnItem,
}

/// The declared result type of `main`.
#[derive(Clone, Copy, Debug, PartialEq, Eq, Structural)]
pub enum RetTy {
    I32,
    I64,
}

/// The `main` function: where its name stands, its declared result type, and its body.
#[derive(Clone, Debug, PartialEq, Eq)]
pub struct FnItem {
    pub name_span: Span,
    pub ret: RetTy,
    pub body: Block,
}

/// A braced block of statements.
#[derive(Clone, Debug, PartialEq, Eq)]
pub struct Block {
    pub span: Span,
    pub stmts: Vec<Stmt>,
}

/// A statement: `let <name> = <expr>;` or `return <expr>;`.
#[derive(Debug, PartialEq, Eq)]
pub enum Stmt {
    Let { name: Vec<u8>, init: Expr, span: Span },
    Return { expr: Expr, span: Span },
}

impl Stmt {
    /// Span of the statement.
    pub fn span(&self) -> (r: Span)
        ensures
            r == stmt_span_of(*self),
    {
        match self {
            Stmt::Let { span, .. } => *span,
            Stmt::Return { span, .. } => *span,
        }
    }
}

/// Span of a statement.
pub open spec fn stmt_span_of(s: Stmt) -> Span {
    match s {
        Stmt::Let { span, .. } => span,
        Stmt::Return { span, .. } => span,
    }
}

/// An expression.
#[derive(Debug, PartialEq, Eq)]
pub enum Expr {
    Int { value: i32, span: Span },
    BoolLit { value: bool, span: Span },
    Var { name: Vec<u8>, span: Span },
    Binary { op: BinOp, left: Box<Expr>, right: Box<Expr>, span: Span },
    Cmp { op: CmpOp, left: Box<Expr>, right: Box<Expr>, span: Span },
    If { cond: Box<Expr>, then_b: Box<Expr>, else_b: Box<Expr>, span: Span },
    ResOk { inner: Box<Expr>, span: Span },
    ResErr { inner: Box<Expr>, span: Span },
    Match { scrutinee: Box<Expr>, ok_name: Vec<u8>, ok_arm: Box<Expr>, err_name: Vec<u8>, err_arm: Box<Expr>, span: Span },
}

/// A binary arithmetic operator.
#[derive(Clone, Copy, Debug, PartialEq, Eq, Structural)]
pub enum BinOp {
    Add,
    Sub,
    Mul,
    Div,
    Mod,
}

/// A comparison operator.
#[derive(Clone, Copy, Debug, PartialEq, Eq, Structural)]
pub enum CmpOp {
    Eq,
    Ne,
    Lt,
    Gt,
    Le,
    Ge,
}

/// Span of an expression.
pub open spec fn expr_span_of(e: Expr) -> Span {
    match e {
        Expr::Int { span, .. } => span,
        Expr::BoolLit { span, .. } => span,
        Expr::Var { span, .. } => span,
        Expr::Binary { span, .. } => span,
        Expr::Cmp { span, .. } => span,
        Expr::If { span, .. } => span,
        Expr::ResOk { span, .. } => span,
        Expr::ResErr { span, .. } => span,
        Expr::Match { span, .. } => span,
    }
}

/// Mathematical view of an expression: names as byte sequences.
pub enum ExprV {
    Int { value: i32, span: Span },
    BoolLit { value: bool, span: Span },
    Var { name: Seq<u8>, span: Span },
    Binary { op: BinOp, left: Box<ExprV>, right: Box<ExprV>, span: Span },
    Cmp { op: CmpOp, left: Box<ExprV>, right: Box<ExprV>, span: Span },
    If { cond: Box<ExprV>, then_b: Box<ExprV>, else_b: Box<ExprV>, span: Span },
    ResOk { inner: Box<ExprV>, span: Span },
    ResErr { inner: Box<ExprV>, span: Span },
    Match { scrutinee: Box<ExprV>, ok_name: Seq<u8>, ok_arm: Box<ExprV>, err_name: Seq<u8>, err_arm: Box<ExprV>, span: Span },
}

/// Mathematical view of a statement.
pub enum StmtV {
    Let { name: Seq<u8>, init: ExprV, span: Span },
    Return { expr: ExprV, span: Span },
}

/// The view of an expression.
pub open spec fn ev(e: Expr) -> ExprV
    decreases e,
{
    match e {
        Expr::Int { value, span } => ExprV::Int { value, span },
        Expr::BoolLit { value, span } => ExprV::BoolLit { value, span },
        Expr::Var { name, span } => ExprV::Var { name: name@, span },
        Expr::Binary { op, left, right, span } => ExprV::Binary { op, left: Box::new(ev(*left)), right: Box::new(ev(*right)), span },
        Expr::Cmp { op, left, right, span } => ExprV::Cmp { op, left: Box::new(ev(*left)), right: Box::new(ev(*right)), span },
        Expr::If { cond, then_b, else_b, span } => ExprV::If {
            cond: Box::new(ev(*cond)),
            then_b: Box::new(ev(*then_b)),
            else_b: Box::new(ev(*else_b)),
            span,
        },
        Expr::ResOk { inner, span } => ExprV::ResOk { inner: Box::new(ev(*inner)), span },
        Expr::ResErr { inner, span } => ExprV::ResErr { inner: Box::new(ev(*inner)), span },
        Expr::Match { scrutinee, ok_name, ok_arm, err_name, err_arm, span } => ExprV::Match {
            scrutinee: Box::new(ev(*scrutinee)),
            ok_name: ok_name@,
            ok_arm: Box::new(ev(*ok_arm)),
            err_name: err_name@,
            err_arm: Box::new(ev(*err_arm)),
            span,
        },
    }
}

/// The view of a statement.
pub open spec fn sv(s: Stmt) -> StmtV {
    match s {
        Stmt::Let { name, init, span } => StmtV::Let { name: name@, init: ev(init), span },
        Stmt::Return { expr, span } => StmtV::Return { expr: ev(expr), span },
    }
}

/// The views of statements.
pub open spec fn svs(s: Seq<Stmt>) -> Seq<StmtV> {
    s.map_values(|x: Stmt| sv(x))
}

/// Span of an expression view.
pub open spec fn span_v(e: ExprV) -> Span {
    match e {
        ExprV::Int { span, .. } => span,
        ExprV::BoolLit { span, .. } => span,
        ExprV::Var { span, .. } => span,
        ExprV::Binary { span, .. } => span,
        ExprV::Cmp { span, .. } => span,
        ExprV::If { span, .. } => span,
        ExprV::ResOk { span, .. } => span,
        ExprV::ResErr { span, .. } => span,
        ExprV::Match { span, .. } => span,
    }
}

/// Span of a statement view.
pub open spec fn stmt_span_v(s: StmtV) -> Span {
    match s {
        StmtV::Let { span, .. } => span,
        StmtV::Return { span, .. } => span,
    }
}

/// A copy of a name.
pub fn copy_name(n: &Vec<u8>) -> (r: Vec<u8>)
    ensures
        r@ == n@,
{
    let mut r: Vec<u8> = Vec::new();
    let mut k: usize = 0;
    while k < n.len()
        invariant
            k <= n@.len(),
            r@ == n@.take(k as int),
        decreases n@.len() - k,
    {
        r.push(n[k]);
        assert(n@.take(k + 1) == n@.take(k as int).push(n@[k as int]));
        k = k + 1;
    }
    assert(n@.take(n@.len() as int) == n@);
    r
}

/// Whether two names are the same.
pub fn same_name(a: &Vec<u8>, b: &Vec<u8>) -> (r: bool)
    ensures
        r == (a@ == b@),
{
    if a.len() != b.len() {
        return false;
    }
    let mut k: usize = 0;
    while k < a.len()
        invariant
            k <= a@.len(),
            a@.len() == b@.len(),
            forall|j: int| 0 <= j < k ==> a@[j] == b@[j],
        decreases a@.len() - k,
    {
        if a[k] != b[k] {
            return false;
        }
        k = k + 1;
    }
    assert(a@ == b@);
    true
}

/// A copy of an expression.
pub fn clone_expr(e: &Expr) -> (r: Expr)
    ensures
        ev(r) == ev(*e),
    decreases e,
{
    match e {
        Expr::Int { value, span } => Expr::Int { value: *value, span: *span },
        Expr::BoolLit { value, span } => Expr::BoolLit { value: *value, span: *span },
        Expr::Var { name, span } => Expr::Var { name: copy_name(name), span: *span },
        Expr::Binary { op, left, right, span } => Expr::Binary {
            op: *op,
            left: Box::new(clone_expr(left)),
            right: Box::new(clone_expr(right)),
            span: *span,
        },
        Expr::Cmp { op, left, right, span } => Expr::Cmp {
            op: *op,
            left: Box::new(clone_expr(left)),
            right: Box::new(clone_expr(right)),
            span: *span,
        },
        Expr::If { cond, then_b, else_b, span } => Expr::If {
            cond: Box::new(clone_expr(cond)),
            then_b: Box::new(clone_expr(then_b)),
            else_b: Box::new(clone_expr(else_b)),
            span: *span,
        },
        Expr::ResOk { inner, span } => Expr::ResOk { inner: Box::new(clone_expr(inner)), span: *span },
        Expr::ResErr { inner, span } => Expr::ResErr { inner: Box::new(clone_expr(inner)), span: *span },
        Expr::Match { scrutinee, ok_name, ok_arm, err_name, err_arm, span } => Expr::Match {
            scrutinee: Box::new(clone_expr(scrutinee)),
            ok_name: copy_name(ok_name),
            ok_arm: Box::new(clone_expr(ok_arm)),
            err_name: copy_name(err_name),
            err_arm: Box::new(clone_expr(err_arm)),
            span: *span,
        },
    }
}

impl Clone for Expr {
    fn clone(&self) -> (r: Self)
        ensures
            ev(r) == ev(*self),
    {
        clone_expr(self)
    }
}

/// A copy of a statement.
pub fn clone_stmt(s: &Stmt) -> (r: Stmt)
    ensures
        sv(r) == sv(*s),
{
    match s {
        Stmt::Let { name, init, span } => Stmt::Let { name: copy_name(name), init: clone_expr(init), span: *span },
        Stmt::Return { expr, span } => Stmt::Return { expr: clone_expr(expr), span: *span },
    }
}

impl Clone for Stmt {
    fn clone(&self) -> (r: Self)
        ensures
            sv(r) == sv(*self),
    {
        clone_stmt(self)
    }
}

} // verus!
