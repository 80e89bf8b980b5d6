//! The parsed, immutable form of a template.
use vstd::prelude::*;
use crate::error::Span;
use crate::value::Value;

verus! {

/// A parsed template: its source text and its root scope.
pub struct Template {
    pub source: String,
    pub scope: Scope,
}

/// An ordered sequence of statements forming one lexical block.
pub struct Scope {
    pub stmts: Vec<Stmt>,
}

pub enum Stmt {
    /// Literal text, copied to the output as it is.
    Raw(String),
    /// An expression whose value is written to the output.
    InlineExpr(InlineExpr),
    IfElse(IfElse),
    ForLoop(ForLoop),
}

pub struct InlineExpr {
    pub expr: Expr,
    pub span: Span,
}

pub struct IfElse {
    pub cond: Expr,
    pub then_branch: Scope,
    pub else_branch: Option<Scope>,
}

pub struct ForLoop {
    pub vars: LoopVars,
    pub iterable: Expr,
    pub body: Scope,
}

/// The names a loop binds: one for a list element, two for a map entry.
pub enum LoopVars {
    Item(Ident),
    KeyValue(KeyValue),
}

pub struct KeyValue {
    pub key: Ident,
    pub value: Ident,
    pub span: Span,
}

pub enum Expr {
    Base(BaseExpr),
    /// A filter applied to the value of `receiver`.
    Call(Call),
}

pub struct Call {
    pub name: Ident,
    pub receiver: Box<Expr>,
    pub span: Span,
}

pub enum BaseExpr {
    Var(Var),
    Literal(Literal),
}

/// A dotted path looked up in the scope stack.
pub struct Var {
    pub path: Vec<Ident>,
    pub span: Span,
}

/// A name in the source and where it stands.
pub struct Ident {
    pub raw: String,
    pub span: Span,
}

pub struct Literal {
    pub value: Value,
    pub span: Span,
}

impl Scope {
    pub fn new() -> (r: Self)
        ensures
            r.stmts@.len() == 0,
    {
        Scope { stmts: Vec::new() }
    }
}

impl Expr {
    pub open spec fn span_spec(&self) -> Span {
        match self {
            Expr::Base(base) => base.span_spec(),
            Expr::Call(call) => call.span,
        }
    }

    /// The source range of this expression.
    pub fn span(&self) -> (r: Span)
        ensures
            r == self.span_spec(),
    {
        match self {
            Expr::Base(base) => base.span(),
            Expr::Call(call) => call.span,
        }
    }
}

impl BaseExpr {
    pub open spec fn span_spec(&self) -> Span {
        match self {
            BaseExpr::Var(var) => var.span,
            BaseExpr::Literal(lit) => lit.span,
        }
    }

    /// The source range of this expression.
    pub fn span(&self) -> (r: Span)
        ensures
            r == self.span_spec(),
    {
        match self {
            BaseExpr::Var(var) => var.span,
            BaseExpr::Literal(lit) => lit.span,
        }
    }
}

} // verus!
