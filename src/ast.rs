use vstd::prelude::*;

verus! {

/// The binary operators of the language.
#[derive(Debug, Clone, Copy, PartialEq, Eq, Structural)]
pub enum BinaryOperator {
    Plus,
    Minus,
    Multiply,
    Divide,
    Equal,
    NotEqual,
    LessThan,
    GreaterThan,
    LessThanOrEqual,
    GreaterThanOrEqual,
    And,
    Or,
}

/// A node of the syntax tree. Each operator node owns its two operands.
///
/// A number keeps the text of its literal, as the scanner produced it.
#[derive(Debug, PartialEq)]
pub enum AstNode {
    Number(String),
    Identifier(String),
    BinaryOp { op: BinaryOperator, left: Box<AstNode>, right: Box<AstNode> },
}

/// The mathematical value of an [`AstNode`].
pub enum Expr {
    Number(Seq<char>),
    Identifier(Seq<char>),
    Binary(BinaryOperator, Box<Expr>, Box<Expr>),
}

/// The value of a syntax tree, node by node.
pub open spec fn expr_of(n: &AstNode) -> Expr
    decreases n,
{
    match n {
        AstNode::Number(s) => Expr::Number(s@),
        AstNode::Identifier(s) => Expr::Identifier(s@),
        AstNode::BinaryOp { op, left, right } => Expr::Binary(
            *op,
            Box::new(expr_of(left)),
            Box::new(expr_of(right)),
        ),
    }
}

impl View for AstNode {
    type V = Expr;

    open spec fn view(&self) -> Expr {
        expr_of(self)
    }
}

/// Why a token sequence is not an expression.
#[derive(Debug, Clone, Copy, PartialEq, Eq, Structural)]
pub enum ParseError {
    /// A token was present but the grammar rule being applied does not accept it.
    UnexpectedToken,
    /// The tokens ran out where the grammar still needed one.
    UnexpectedEndOfInput,
}

} // verus!
