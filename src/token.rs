use vstd::prelude::*;

verus! {

/// A lexical unit of the expression language.
///
/// A number keeps the text of its literal: ASCII digits, optionally followed
/// by one `.` and more digits. Every such text reads as a decimal number.
#[derive(Debug)]
pub enum Token {
    Number(String),
    Plus,
    Minus,
    Multiply,
    Divide,
    LeftParenthesis,
    RightParenthesis,
    Identifier(String),
    Equal,
    NotEqual,
    LessThan,
    GreaterThan,
    LessThanOrEqual,
    GreaterThanOrEqual,
    And,
    Or,
}

/// The mathematical value of a [`Token`]: the same variants, with the text
/// of numbers and identifiers as a sequence of characters.
pub enum TokenV {
    Number(Seq<char>),
    Plus,
    Minus,
    Multiply,
    Divide,
    LeftParenthesis,
    RightParenthesis,
    Identifier(Seq<char>),
    Equal,
    NotEqual,
    LessThan,
    GreaterThan,
    LessThanOrEqual,
    GreaterThanOrEqual,
    And,
    Or,
}

impl View for Token {
    type V = TokenV;

    open spec fn view(&self) -> TokenV {
        match self {
            Token::Number(s) => TokenV::Number(s@),
            Token::Plus => TokenV::Plus,
            Token::Minus => TokenV::Minus,
            Token::Multiply => TokenV::Multiply,
            Token::Divide => TokenV::Divide,
            Token::LeftParenthesis => TokenV::LeftParenthesis,
            Token::RightParenthesis => TokenV::RightParenthesis,
            Token::Identifier(s) => TokenV::Identifier(s@),
            Token::Equal => TokenV::Equal,
            Token::NotEqual => TokenV::NotEqual,
            Token::LessThan => TokenV::LessThan,
            Token::GreaterThan => TokenV::GreaterThan,
            Token::LessThanOrEqual => TokenV::LessThanOrEqual,
            Token::GreaterThanOrEqual => TokenV::GreaterThanOrEqual,
            Token::And => TokenV::And,
            Token::Or => TokenV::Or,
        }
    }
}

/// The values of a sequence of tokens.
pub open spec fn tokens_view(ts: Seq<Token>) -> Seq<TokenV> {
    ts.map_values(|t: Token| t@)
}

impl PartialEq for Token {
    fn eq(&self, other: &Token) -> (r: bool)
        ensures
            r == (self@ == other@),
    {
        match (self, other) {
            (Token::Number(a), Token::Number(b)) => a.eq(b),
            (Token::Identifier(a), Token::Identifier(b)) => a.eq(b),
            (Token::Plus, Token::Plus) => true,
            (Token::Minus, Token::Minus) => true,
            (Token::Multiply, Token::Multiply) => true,
            (Token::Divide, Token::Divide) => true,
            (Token::LeftParenthesis, Token::LeftParenthesis) => true,
            (Token::RightParenthesis, Token::RightParenthesis) => true,
            (Token::Equal, Token::Equal) => true,
            (Token::NotEqual, Token::NotEqual) => true,
            (Token::LessThan, Token::LessThan) => true,
            (Token::GreaterThan, Token::GreaterThan) => true,
            (Token::LessThanOrEqual, Token::LessThanOrEqual) => true,
            (Token::GreaterThanOrEqual, Token::GreaterThanOrEqual) => true,
            (Token::And, Token::And) => true,
            (Token::Or, Token::Or) => true,
            _ => false,
        }
    }
}

impl vstd::std_specs::cmp::PartialEqSpecImpl for Token {
    open spec fn obeys_eq_spec() -> bool {
        true
    }

    open spec fn eq_spec(&self, other: &Token) -> bool {
        self@ == other@
    }
}

} // verus!
