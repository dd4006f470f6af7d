//! The abstract syntax tree that the parser builds, and its mathematical model.
use crate::lexer::Span;
use vstd::prelude::*;

verus! {

/// A whole source file: its top-level expressions in source order.
#[derive(Debug)]
pub struct Program {
    pub stmts: Vec<Expr>,
}

/// An expression with the span of the text it was parsed from.
#[derive(Debug)]
pub struct Expr {
    pub span: Span,
    pub expr: ExprKind,
}

#[derive(Debug)]
pub enum ExprKind {
    Ident(String),
    Integer(usize),
    String(String),
    VarDecl { constant: bool, mutable: bool, name: String, ty: Option<Type>, value: Box<Expr> },
    FnDecl { name: String, params: Vec<Param>, ret_ty: Type, body: Vec<Expr> },
    FnCall { name: String, args: Vec<Expr> },
    MacroCall { name: String, args: Vec<Expr> },
}

/// A function parameter and its type.
#[derive(Debug)]
pub struct Param {
    pub name: String,
    pub value: Type,
}

#[derive(Debug)]
pub enum Type {
    Ident(String),
}

/// The shape of an expression, with names as character sequences.
pub enum Shape {
    Ident(Seq<char>),
    Integer(nat),
    Str(Seq<char>),
    VarDecl { constant: bool, mutable: bool, name: Seq<char>, value: Box<Tree> },
    FnDecl {
        name: Seq<char>,
        params: Seq<(Seq<char>, Seq<char>)>,
        ret_ty: Seq<char>,
        body: Seq<Tree>,
    },
    FnCall { name: Seq<char>, args: Seq<Tree> },
    MacroCall { name: Seq<char>, args: Seq<Tree> },
}

/// The model of an expression: its span and its shape.
pub struct Tree {
    pub span: Span,
    pub shape: Shape,
}

pub open spec fn ty_name(t: Type) -> Seq<char> {
    match t {
        Type::Ident(n) => n@,
    }
}

/// `e` is the expression that `t` describes.
pub open spec fn models(e: Expr, t: Tree) -> bool
    decreases t,
{
    e.span == t.span && match (e.expr, t.shape) {
        (ExprKind::Ident(n), Shape::Ident(m)) => n@ == m,
        (ExprKind::Integer(v), Shape::Integer(w)) => v == w,
        (ExprKind::String(x), Shape::Str(y)) => x@ == y,
        (
            ExprKind::VarDecl { constant, mutable, name, ty, value },
            Shape::VarDecl { constant: c, mutable: m, name: n, value: v },
        ) => constant == c && mutable == m && name@ == n && ty is None && models(*value, *v),
        (
            ExprKind::FnDecl { name, params, ret_ty, body },
            Shape::FnDecl { name: n, params: ps, ret_ty: rt, body: b },
        ) => {
            &&& name@ == n
            &&& params@.len() == ps.len()
            &&& forall|i: int|
                0 <= i < ps.len() ==> (#[trigger] params@[i]).name@ == ps[i].0 && ty_name(
                    params@[i].value,
                ) == ps[i].1
            &&& ty_name(ret_ty) == rt
            &&& models_all(body@, b)
        },
        (ExprKind::FnCall { name, args }, Shape::FnCall { name: n, args: a }) => name@ == n
            && models_all(args@, a),
        (ExprKind::MacroCall { name, args }, Shape::MacroCall { name: n, args: a }) => name@ == n
            && models_all(args@, a),
        _ => false,
    }
}

/// Each of `es` is the expression that the tree at its index describes.
pub open spec fn models_all(es: Seq<Expr>, ts: Seq<Tree>) -> bool
    decreases ts,
{
    es.len() == ts.len() && forall|i: int| 0 <= i < ts.len() ==> models(#[trigger] es[i], ts[i])
}

/// No binding in `t` is both constant and mutable.
pub open spec fn bindings_consistent(t: Tree) -> bool
    decreases t,
{
    match t.shape {
        Shape::VarDecl { constant, mutable, value, .. } => !(constant && mutable)
            && bindings_consistent(*value),
        Shape::FnDecl { body, .. } => all_consistent(body),
        Shape::FnCall { args, .. } => all_consistent(args),
        Shape::MacroCall { args, .. } => all_consistent(args),
        _ => true,
    }
}

pub open spec fn all_consistent(ts: Seq<Tree>) -> bool
    decreases ts,
{
    forall|i: int| 0 <= i < ts.len() ==> bindings_consistent(#[trigger] ts[i])
}

} // verus!
