//! The abstract syntax tree: plain data produced by the parser, owned
//! exclusively top-down, with ghost views the parser's contracts speak
//! about.

use vstd::prelude::*;

verus! {

broadcast use vstd::std_specs::vec::group_vec_axioms;

/// Ghost counterpart of [`Expression`].
pub enum ExprView {
    Number(Seq<char>),
    Variable(Seq<char>),
    Binary(char, Box<ExprView>, Box<ExprView>),
    Call(Seq<char>, Seq<ExprView>),
}

/// A numeric expression. A `NumberExpr` carries the literal text of the
/// number (digits with at most one dot); turning it into a machine float
/// is the consumer's concern.
#[derive(Debug, PartialEq)]
pub enum Expression {
    NumberExpr(String),
    VariableExpr(String),
    BinaryExpr(char, Box<Expression>, Box<Expression>),
    CallExpr(String, Vec<Expression>),
}

/// The ghost image of an expression tree.
pub open spec fn expr_view(e: Expression) -> ExprView
    decreases e,
{
    match e {
        Expression::NumberExpr(t) => ExprView::Number(t@),
        Expression::VariableExpr(n) => ExprView::Variable(n@),
        Expression::BinaryExpr(op, l, r) => ExprView::Binary(
            op,
            Box::new(expr_view(*l)),
            Box::new(expr_view(*r)),
        ),
        Expression::CallExpr(n, args) => ExprView::Call(n@, exprs_view(args@)),
    }
}

/// The ghost images of a sequence of expressions, element by element.
pub open spec fn exprs_view(v: Seq<Expression>) -> Seq<ExprView>
    decreases v,
{
    Seq::new(
        v.len(),
        |i: int|
            if 0 <= i < v.len() {
                expr_view(v[i])
            } else {
                ExprView::Number(Seq::empty())
            },
    )
}

/// The ghost images of a sequence of strings, element by element.
pub open spec fn strings_view(v: Seq<String>) -> Seq<Seq<char>> {
    Seq::new(v.len(), |i: int| v[i]@)
}

impl View for Expression {
    type V = ExprView;

    open spec fn view(&self) -> ExprView {
        expr_view(*self)
    }
}

/// Ghost counterpart of [`Prototype`].
pub struct PrototypeView {
    pub name: Seq<char>,
    pub args: Seq<Seq<char>>,
}

/// The signature of a callable: its name and its ordered parameter names.
/// Uniqueness of parameter names is not enforced at this layer.
#[derive(Debug, PartialEq)]
pub struct Prototype {
    pub name: String,
    pub args: Vec<String>,
}

impl View for Prototype {
    type V = PrototypeView;

    open spec fn view(&self) -> PrototypeView {
        PrototypeView { name: self.name@, args: strings_view(self.args@) }
    }
}

/// Ghost counterpart of [`Function`].
pub struct FunctionView {
    pub prototype: PrototypeView,
    pub body: ExprView,
}

/// A function definition: one prototype and one expression body.
#[derive(Debug, PartialEq)]
pub struct Function {
    pub prototype: Prototype,
    pub body: Expression,
}

impl View for Function {
    type V = FunctionView;

    open spec fn view(&self) -> FunctionView {
        FunctionView { prototype: self.prototype@, body: self.body@ }
    }
}

/// Ghost counterpart of [`ASTNode`].
pub enum NodeView {
    Extern(PrototypeView),
    Function(FunctionView),
}

/// A top-level declaration: an `extern` prototype or a function definition.
#[derive(Debug, PartialEq)]
pub enum ASTNode {
    ExternNode(Prototype),
    FunctionNode(Function),
}

impl View for ASTNode {
    type V = NodeView;

    open spec fn view(&self) -> NodeView {
        match self {
            ASTNode::ExternNode(p) => NodeView::Extern(p@),
            ASTNode::FunctionNode(f) => NodeView::Function(f@),
        }
    }
}

/// A parsed program: its top-level declarations in order.
pub type Program = Vec<ASTNode>;

/// The ghost images of a sequence of top-level declarations.
pub open spec fn nodes_view(s: Seq<ASTNode>) -> Seq<NodeView> {
    Seq::new(s.len(), |i: int| s[i]@)
}

/// The ghost image of a program.
pub open spec fn program_view(p: Program) -> Seq<NodeView> {
    nodes_view(p@)
}

} // verus!
