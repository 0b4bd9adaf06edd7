use vstd::prelude::*;
use crate::tokens::{Token, Tok};

verus! {

/// The type a variable is declared with.
#[derive(Debug, Clone, Copy, PartialEq, Eq, Structural)]
pub enum VarType {
    Int,
    StringType,
}

/// A node of the syntax tree. A number literal keeps its numeral text.
#[derive(Debug)]
pub enum Expr {
    VarDeclaration { var_type: VarType, name: String, value: Box<Expr> },
    Number(String),
    String(String),
    Binary { left: Box<Expr>, operator: Token, right: Box<Expr> },
    Variable(String),
    Assignment { name: String, value: Box<Expr> },
    Print(Box<Expr>),
}

/// The mathematical model of a syntax tree.
pub enum Node {
    VarDeclaration { var_type: VarType, name: Seq<char>, value: Box<Node> },
    Number(Seq<char>),
    Str(Seq<char>),
    Binary { left: Box<Node>, operator: Tok, right: Box<Node> },
    Variable(Seq<char>),
    Assignment { name: Seq<char>, value: Box<Node> },
    Print(Box<Node>),
}

pub open spec fn node_of(e: Expr) -> Node
    decreases e,
{
    match e {
        Expr::VarDeclaration { var_type, name, value } => Node::VarDeclaration {
            var_type,
            name: name@,
            value: Box::new(node_of(*value)),
        },
        Expr::Number(s) => Node::Number(s@),
        Expr::String(s) => Node::Str(s@),
        Expr::Binary { left, operator, right } => Node::Binary {
            left: Box::new(node_of(*left)),
            operator: operator@,
            right: Box::new(node_of(*right)),
        },
        Expr::Variable(s) => Node::Variable(s@),
        Expr::Assignment { name, value } => Node::Assignment {
            name: name@,
            value: Box::new(node_of(*value)),
        },
        Expr::Print(v) => Node::Print(Box::new(node_of(*v))),
    }
}

impl View for Expr {
    type V = Node;

    open spec fn view(&self) -> Node {
        node_of(*self)
    }
}

/// The models of a sequence of statements.
pub open spec fn nodes(v: Seq<Expr>) -> Seq<Node> {
    v.map_values(|e: Expr| e@)
}

} // verus!
