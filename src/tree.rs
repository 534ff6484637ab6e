//! Expression trees and their mathematical model.
use vstd::prelude::*;

verus! {

/// The operator of a binary node.
#[derive(Debug, Clone, Copy, PartialEq, Eq, Structural)]
pub enum BinaryOp {
    Add,
    Subtract,
    Multiply,
    Divide,
}

/// What a tree denotes: literals keep their decimal text.
pub enum Expr {
    Literal(Seq<char>),
    Negate(Box<Expr>),
    Binary(BinaryOp, Box<Expr>, Box<Expr>),
}

/// An expression tree; each node owns its children.
#[derive(Debug)]
pub enum Node {
    Leaf(Leaf),
    Binary(BinaryNode),
    Unary(UnaryNode),
}

/// A number literal, held as its decimal text (digits with at most one `.`).
#[derive(Debug)]
pub struct Leaf {
    pub text: Vec<char>,
}

#[derive(Debug)]
pub struct BinaryNode {
    pub left: Box<Node>,
    pub right: Box<Node>,
    pub op: BinaryOp,
}

/// Negation of its child.
#[derive(Debug)]
pub struct UnaryNode {
    pub child: Box<Node>,
}

impl Node {
    pub open spec fn view(&self) -> Expr
        decreases self,
    {
        match self {
            Node::Leaf(l) => Expr::Literal(l.text@),
            Node::Binary(b) => Expr::Binary(b.op, Box::new(b.left.view()), Box::new(b.right.view())),
            Node::Unary(u) => Expr::Negate(Box::new(u.child.view())),
        }
    }
}

impl Leaf {
    pub fn new(text: Vec<char>) -> (r: Node)
        ensures
            r@ == Expr::Literal(text@),
    {
        Node::Leaf(Leaf { text })
    }
}

impl BinaryNode {
    pub fn new(left: Node, right: Node, op: BinaryOp) -> (r: Node)
        ensures
            r@ == Expr::Binary(op, Box::new(left@), Box::new(right@)),
    {
        Node::Binary(BinaryNode { left: Box::new(left), right: Box::new(right), op })
    }
}

impl UnaryNode {
    pub fn new(child: Node) -> (r: Node)
        ensures
            r@ == Expr::Negate(Box::new(child@)),
    {
        Node::Unary(UnaryNode { child: Box::new(child) })
    }
}

} // verus!
