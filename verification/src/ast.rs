//! Abstract syntax of an `lir/1` program: one source followed by a pipeline of stages.

use vstd::prelude::*;
use crate::error::Span;

verus! {

/// A whole program: its source and the stages applied to it, in order.
#[derive(Clone, Debug, PartialEq, Eq)]
pub struct Program {
    pub span: Span,
    pub source: Source,
    pub stages: Vec<Stage>,
}

/// Element type of a stream.
#[derive(Clone, Copy, Debug, PartialEq, Eq, Hash, Structural)]
pub enum ElemTy {
    I32,
    I64,
    Bool,
}

/// Where the stream comes from.
#[derive(Clone, Debug, PartialEq, Eq)]
pub enum Source {
    Input { ty: ElemTy, explicit: bool, span: Span },
    Range { start: i64, stop: i64, step: i64, span: Span },
    Lit { elems: Vec<LitElem>, span: Span },
}

/// One element of a `lit(...)` source.
#[derive(Clone, Copy, Debug, PartialEq, Eq, Structural)]
pub enum LitElem {
    I32(i32),
    I64(i64),
    Bool(bool),
}

/// One pipeline stage.
#[derive(Clone, Debug, PartialEq, Eq)]
pub enum Stage {
    Filter { pred: Predicate, span: Span },
    MapEach { expr: Expr, span: Span },
    Scan { init: i64, op: ScanOp, span: Span },
    Reduce { op: ReduceOp, span: Span },
    Take { n: u32, span: Span },
    Drop { n: u32, span: Span },
    Id { span: Span },
}

/// Operator of a `scan` stage.
#[derive(Clone, Copy, Debug, PartialEq, Eq, Structural)]
pub enum ScanOp {
    Add,
    Sub,
    Mul,
}

/// Operator of a `reduce` stage.
#[derive(Clone, Copy, Debug, PartialEq, Eq, Structural)]
pub enum ReduceOp {
    Sum,
    Prod,
    Count,
    Min,
    Max,
}

/// Filter predicate over the current element.
#[derive(Debug, PartialEq, Eq)]
pub enum Predicate {
    Or { left: Box<Predicate>, right: Box<Predicate>, span: Span },
    And { left: Box<Predicate>, right: Box<Predicate>, span: Span },
    Not { inner: Box<Predicate>, span: Span },
    Even { span: Span },
    Odd { span: Span },
    Cmp { op: CmpOp, rhs: CmpRhs, span: Span },
}

/// Right-hand side of a comparison atom.
#[derive(Clone, Copy, Debug, PartialEq, Eq, Structural)]
pub enum CmpRhs {
    Int(i64),
    Bool(bool),
}

/// Comparison operator.
#[derive(Clone, Copy, Debug, PartialEq, Eq, Structural)]
pub enum CmpOp {
    Eq,
    Lt,
    Le,
    Gt,
    Ge,
}

/// `map` expression over the current element `.`.
#[derive(Debug, PartialEq, Eq)]
pub enum Expr {
    Add { left: Box<Expr>, right: Box<Expr>, span: Span },
    Sub { left: Box<Expr>, right: Box<Expr>, span: Span },
    Mul { left: Box<Expr>, right: Box<Expr>, span: Span },
    Div { left: Box<Expr>, right: Box<Expr>, span: Span },
    Mod { left: Box<Expr>, right: Box<Expr>, span: Span },
    Neg { inner: Box<Expr>, span: Span },
    Dot { span: Span },
    Lit { v: i64, span: Span },
}

/// A copy of a predicate.
pub fn clone_predicate(p: &Predicate) -> (r: Predicate)
    ensures
        r == *p,
    decreases p,
{
    match p {
        Predicate::Or { left, right, span } => Predicate::Or {
            left: Box::new(clone_predicate(left)),
            right: Box::new(clone_predicate(right)),
            span: *span,
        },
        Predicate::And { left, right, span } => Predicate::And {
            left: Box::new(clone_predicate(left)),
            right: Box::new(clone_predicate(right)),
            span: *span,
        },
        Predicate::Not { inner, span } => Predicate::Not { inner: Box::new(clone_predicate(inner)), span: *span },
        Predicate::Even { span } => Predicate::Even { span: *span },
        Predicate::Odd { span } => Predicate::Odd { span: *span },
        Predicate::Cmp { op, rhs, span } => Predicate::Cmp { op: *op, rhs: *rhs, span: *span },
    }
}

impl Clone for Predicate {
    fn clone(&self) -> (r: Self)
        ensures
            r == *self,
    {
        clone_predicate(self)
    }
}

/// A copy of an expression.
pub fn clone_expr(e: &Expr) -> (r: Expr)
    ensures
        r == *e,
    decreases e,
{
    match e {
        Expr::Add { left, right, span } => Expr::Add {
            left: Box::new(clone_expr(left)),
            right: Box::new(clone_expr(right)),
            span: *span,
        },
        Expr::Sub { left, right, span } => Expr::Sub {
            left: Box::new(clone_expr(left)),
            right: Box::new(clone_expr(right)),
            span: *span,
        },
        Expr::Mul { left, right, span } => Expr::Mul {
            left: Box::new(clone_expr(left)),
            right: Box::new(clone_expr(right)),
            span: *span,
        },
        Expr::Div { left, right, span } => Expr::Div {
            left: Box::new(clone_expr(left)),
            right: Box::new(clone_expr(right)),
            span: *span,
        },
        Expr::Mod { left, right, span } => Expr::Mod {
            left: Box::new(clone_expr(left)),
            right: Box::new(clone_expr(right)),
            span: *span,
        },
        Expr::Neg { inner, span } => Expr::Neg { inner: Box::new(clone_expr(inner)), span: *span },
        Expr::Dot { span } => Expr::Dot { span: *span },
        Expr::Lit { v, span } => Expr::Lit { v: *v, span: *span },
    }
}

impl Clone for Expr {
    fn clone(&self) -> (r: Self)
        ensures
            r == *self,
    {
        clone_expr(self)
    }
}

/// Span recorded on a stage.
pub open spec fn stage_span_of(st: Stage) -> Span {
    match st {
        Stage::Filter { span, .. } => span,
        Stage::MapEach { span, .. } => span,
        Stage::Scan { span, .. } => span,
        Stage::Reduce { span, .. } => span,
        Stage::Take { span, .. } => span,
        Stage::Drop { span, .. } => span,
        Stage::Id { span } => span,
    }
}

/// Span recorded on a stage.
pub fn stage_span(st: &Stage) -> (r: Span)
    ensures
        r == stage_span_of(*st),
{
    match st {
        Stage::Filter { span, .. } => *span,
        Stage::MapEach { span, .. } => *span,
        Stage::Scan { span, .. } => *span,
        Stage::Reduce { span, .. } => *span,
        Stage::Take { span, .. } => *span,
        Stage::Drop { span, .. } => *span,
        Stage::Id { span } => *span,
    }
}


/// Mathematical view of a source: `lit` elements as a sequence.
pub enum SourceView {
    Input { ty: ElemTy, explicit: bool, span: Span },
    Range { start: i64, stop: i64, step: i64, span: Span },
    Lit { elems: Seq<LitElem>, span: Span },
}

impl View for Source {
    type V = SourceView;

    open spec fn view(&self) -> SourceView {
        match self {
            Source::Input { ty, explicit, span } => SourceView::Input { ty: *ty, explicit: *explicit, span: *span },
            Source::Range { start, stop, step, span } => SourceView::Range { start: *start, stop: *stop, step: *step, span: *span },
            Source::Lit { elems, span } => SourceView::Lit { elems: elems@, span: *span },
        }
    }
}

/// Mathematical view of a program: stages as a sequence.
pub struct ProgramView {
    pub span: Span,
    pub source: SourceView,
    pub stages: Seq<Stage>,
}

impl View for Program {
    type V = ProgramView;

    open spec fn view(&self) -> ProgramView {
        ProgramView { span: self.span, source: self.source@, stages: self.stages@ }
    }
}

/// Span recorded on a predicate.
pub open spec fn pred_span_of(p: Predicate) -> Span {
    match p {
        Predicate::Or { span, .. } => span,
        Predicate::And { span, .. } => span,
        Predicate::Not { span, .. } => span,
        Predicate::Even { span } => span,
        Predicate::Odd { span } => span,
        Predicate::Cmp { span, .. } => span,
    }
}

/// Span recorded on an expression.
pub open spec fn expr_span_of(e: Expr) -> Span {
    match e {
        Expr::Add { span, .. } => span,
        Expr::Sub { span, .. } => span,
        Expr::Mul { span, .. } => span,
        Expr::Div { span, .. } => span,
        Expr::Mod { span, .. } => span,
        Expr::Neg { span, .. } => span,
        Expr::Dot { span } => span,
        Expr::Lit { span, .. } => span,
    }
}
} // verus!
