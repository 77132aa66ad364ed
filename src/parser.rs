use vstd::prelude::*;

use crate::ast::{AstNode, BinaryOperator, Expr, ParseError};
use crate::token::{Token, TokenV, tokens_view};

verus! {

/// Precedence levels, from the loosest binding to the tightest.
pub const OR_LEVEL: u8 = 0;

pub const AND_LEVEL: u8 = 1;

pub const EQUALITY_LEVEL: u8 = 2;

pub const COMPARISON_LEVEL: u8 = 3;

pub const ADDITIVE_LEVEL: u8 = 4;

pub const MULTIPLICATIVE_LEVEL: u8 = 5;

pub const UNARY_LEVEL: u8 = 6;

pub const PRIMARY_LEVEL: u8 = 7;

/// The binary operator that a token stands for, with the level it binds at.
pub open spec fn binary_operator(t: TokenV) -> Option<(BinaryOperator, nat)> {
    match t {
        TokenV::Or => Some((BinaryOperator::Or, OR_LEVEL as nat)),
        TokenV::And => Some((BinaryOperator::And, AND_LEVEL as nat)),
        TokenV::Equal => Some((BinaryOperator::Equal, EQUALITY_LEVEL as nat)),
        TokenV::NotEqual => Some((BinaryOperator::NotEqual, EQUALITY_LEVEL as nat)),
        TokenV::LessThan => Some((BinaryOperator::LessThan, COMPARISON_LEVEL as nat)),
        TokenV::GreaterThan => Some((BinaryOperator::GreaterThan, COMPARISON_LEVEL as nat)),
        TokenV::LessThanOrEqual => Some(
            (BinaryOperator::LessThanOrEqual, COMPARISON_LEVEL as nat),
        ),
        TokenV::GreaterThanOrEqual => Some(
            (BinaryOperator::GreaterThanOrEqual, COMPARISON_LEVEL as nat),
        ),
        TokenV::Plus => Some((BinaryOperator::Plus, ADDITIVE_LEVEL as nat)),
        TokenV::Minus => Some((BinaryOperator::Minus, ADDITIVE_LEVEL as nat)),
        TokenV::Multiply => Some((BinaryOperator::Multiply, MULTIPLICATIVE_LEVEL as nat)),
        TokenV::Divide => Some((BinaryOperator::Divide, MULTIPLICATIVE_LEVEL as nat)),
        _ => None,
    }
}

/// The operator of the given level at position `pos`, if there is one.
pub open spec fn operator_at(ts: Seq<TokenV>, pos: int, level: nat) -> Option<BinaryOperator> {
    if 0 <= pos < ts.len() {
        match binary_operator(ts[pos]) {
            Some((op, l)) => if l == level {
                Some(op)
            } else {
                None
            },
            None => None,
        }
    } else {
        None
    }
}

/// The operand that a leading `-` is subtracted from.
pub open spec fn negation(e: Expr) -> Expr {
    Expr::Binary(BinaryOperator::Minus, Box::new(Expr::Number(seq!['0'])), Box::new(e))
}

/// The grammar, one level at a time: the expression of the given level that
/// starts at `pos`, with the position after it, or why there is none.
///
/// A binary level reads an operand of the next level, then folds in each
/// operator of its own level and the operand after it, from the left. The
/// unary level reads an optional `-` before a primary. A primary is a number,
/// an identifier, or an expression in parentheses.
pub open spec fn parse_level(ts: Seq<TokenV>, pos: int, level: nat) -> Result<
    (Expr, int),
    ParseError,
>
    decreases ts.len() - pos, 8 - level,
{
    if level < UNARY_LEVEL {
        match parse_level(ts, pos, level + 1) {
            Err(e) => Err(e),
            Ok((left, p)) => if pos < p <= ts.len() {
                fold_level(ts, p, level, left)
            } else {
                Err(ParseError::UnexpectedToken)
            },
        }
    } else if level == UNARY_LEVEL {
        if 0 <= pos < ts.len() && ts[pos] == TokenV::Minus {
            match parse_level(ts, pos + 1, PRIMARY_LEVEL as nat) {
                Err(e) => Err(e),
                Ok((e, p)) => Ok((negation(e), p)),
            }
        } else {
            parse_level(ts, pos, PRIMARY_LEVEL as nat)
        }
    } else if !(0 <= pos < ts.len()) {
        Err(ParseError::UnexpectedEndOfInput)
    } else {
        match ts[pos] {
            TokenV::Number(s) => Ok((Expr::Number(s), pos + 1)),
            TokenV::Identifier(s) => Ok((Expr::Identifier(s), pos + 1)),
            TokenV::LeftParenthesis => match parse_level(ts, pos + 1, OR_LEVEL as nat) {
                Err(e) => Err(e),
                Ok((e, p)) => if !(0 <= p < ts.len()) {
                    Err(ParseError::UnexpectedEndOfInput)
                } else if ts[p] == TokenV::RightParenthesis {
                    Ok((e, p + 1))
                } else {
                    Err(ParseError::UnexpectedToken)
                },
            },
            _ => Err(ParseError::UnexpectedToken),
        }
    }
}

/// The rest of a binary level from `pos`, where `acc` is what was read so far.
pub open spec fn fold_level(ts: Seq<TokenV>, pos: int, level: nat, acc: Expr) -> Result<
    (Expr, int),
    ParseError,
>
    decreases ts.len() - pos, 0nat,
{
    match operator_at(ts, pos, level) {
        None => Ok((acc, pos)),
        Some(op) => match parse_level(ts, pos + 1, level + 1) {
            Err(e) => Err(e),
            Ok((right, p)) => if pos < p <= ts.len() {
                fold_level(ts, p, level, Expr::Binary(op, Box::new(acc), Box::new(right)))
            } else {
                Err(ParseError::UnexpectedToken)
            },
        },
    }
}

/// The expression at the start of `ts`, or why there is none. Tokens after
/// the expression are left unread.
pub open spec fn parse_tokens(ts: Seq<TokenV>) -> Result<Expr, ParseError> {
    match parse_level(ts, 0, OR_LEVEL as nat) {
        Ok((e, _)) => Ok(e),
        Err(e) => Err(e),
    }
}

/// A successful parse at any level reads at least one token and stops within
/// the sequence. So the position checks inside `parse_level` and `fold_level`
/// always pass, and their `UnexpectedToken` fallbacks are never taken.
pub proof fn lemma_parse_advances(ts: Seq<TokenV>, pos: int, level: nat)
    ensures
        parse_level(ts, pos, level) matches Ok((_, p)) ==> pos < p <= ts.len(),
    decreases ts.len() - pos, 8 - level,
{
    if level < UNARY_LEVEL {
        lemma_parse_advances(ts, pos, level + 1);
        if let Ok((left, p)) = parse_level(ts, pos, level + 1) {
            lemma_fold_advances(ts, p, level, left);
        }
    } else if level == UNARY_LEVEL {
        if 0 <= pos < ts.len() && ts[pos] == TokenV::Minus {
            lemma_parse_advances(ts, pos + 1, PRIMARY_LEVEL as nat);
        } else {
            lemma_parse_advances(ts, pos, PRIMARY_LEVEL as nat);
        }
    } else if 0 <= pos < ts.len() && ts[pos] == TokenV::LeftParenthesis {
        lemma_parse_advances(ts, pos + 1, OR_LEVEL as nat);
    }
}

/// Folding the rest of a binary level never moves back nor past the end.
pub proof fn lemma_fold_advances(ts: Seq<TokenV>, pos: int, level: nat, acc: Expr)
    requires
        pos <= ts.len(),
    ensures
        fold_level(ts, pos, level, acc) matches Ok((_, p)) ==> pos <= p <= ts.len(),
    decreases ts.len() - pos, 0nat,
{
    if let Some(op) = operator_at(ts, pos, level) {
        lemma_parse_advances(ts, pos + 1, level + 1);
        if let Ok((right, p)) = parse_level(ts, pos + 1, level + 1) {
            lemma_fold_advances(ts, p, level, Expr::Binary(op, Box::new(acc), Box::new(right)));
        }
    }
}

/// Parsing depends on the tokens alone: equal sequences give equal results.
pub proof fn lemma_parse_deterministic(a: Seq<TokenV>, b: Seq<TokenV>)
    requires
        a == b,
    ensures
        parse_tokens(a) == parse_tokens(b),
{
}

/// Whether an exec result is the outcome `s` of the grammar, with the
/// parser at `pos` after a success.
pub open spec fn is_outcome(
    r: Result<AstNode, ParseError>,
    pos: int,
    s: Result<(Expr, int), ParseError>,
) -> bool {
    match r {
        Ok(n) => s == Ok::<(Expr, int), ParseError>((n@, pos)),
        Err(e) => s == Err::<(Expr, int), ParseError>(e),
    }
}

/// The value of a parse result.
pub open spec fn result_view(r: Result<AstNode, ParseError>) -> Result<Expr, ParseError> {
    match r {
        Ok(n) => Ok(n@),
        Err(e) => Err(e),
    }
}

/// The operator that a token stands for, with its level.
fn binary_operator_of(t: &Token) -> (r: Option<(BinaryOperator, u8)>)
    ensures
        match r {
            Some((op, l)) => binary_operator(t@) == Some((op, l as nat)),
            None => binary_operator(t@) is None,
        },
{
    match t {
        Token::Or => Some((BinaryOperator::Or, OR_LEVEL)),
        Token::And => Some((BinaryOperator::And, AND_LEVEL)),
        Token::Equal => Some((BinaryOperator::Equal, EQUALITY_LEVEL)),
        Token::NotEqual => Some((BinaryOperator::NotEqual, EQUALITY_LEVEL)),
        Token::LessThan => Some((BinaryOperator::LessThan, COMPARISON_LEVEL)),
        Token::GreaterThan => Some((BinaryOperator::GreaterThan, COMPARISON_LEVEL)),
        Token::LessThanOrEqual => Some((BinaryOperator::LessThanOrEqual, COMPARISON_LEVEL)),
        Token::GreaterThanOrEqual => Some((BinaryOperator::GreaterThanOrEqual, COMPARISON_LEVEL)),
        Token::Plus => Some((BinaryOperator::Plus, ADDITIVE_LEVEL)),
        Token::Minus => Some((BinaryOperator::Minus, ADDITIVE_LEVEL)),
        Token::Multiply => Some((BinaryOperator::Multiply, MULTIPLICATIVE_LEVEL)),
        Token::Divide => Some((BinaryOperator::Divide, MULTIPLICATIVE_LEVEL)),
        _ => None,
    }
}

/// A recursive-descent parser over a token sequence, with a read cursor.
pub struct Parser<'a> {
    tokens: &'a [Token],
    position: usize,
}

impl<'a> Parser<'a> {
    /// The tokens being read.
    pub closed spec fn model(&self) -> Seq<TokenV> {
        tokens_view(self.tokens@)
    }

    /// The position of the cursor.
    pub closed spec fn pos(&self) -> int {
        self.position as int
    }

    /// The cursor lies within the tokens, or just after them.
    pub closed spec fn wf(&self) -> bool {
        self.position <= self.tokens@.len()
    }

    /// A parser at the start of `tokens`.
    pub fn new(tokens: &'a [Token]) -> (p: Self)
        ensures
            p.wf(),
            p.model() == tokens_view(tokens@),
            p.pos() == 0,
    {
        Parser { tokens, position: 0 }
    }

    /// Parses one expression from the cursor on; tokens after it are left
    /// unread. On success the cursor stands after the expression.
    pub fn parse(&mut self) -> (r: Result<AstNode, ParseError>)
        requires
            old(self).wf(),
        ensures
            final(self).wf(),
            final(self).model() == old(self).model(),
            is_outcome(r, final(self).pos(), parse_level(old(self).model(), old(self).pos(), OR_LEVEL as nat)),
            r is Ok ==> old(self).pos() < final(self).pos(),
    {
        self.parse_expression()
    }

    fn parse_expression(&mut self) -> (r: Result<AstNode, ParseError>)
        requires
            old(self).wf(),
        ensures
            final(self).wf(),
            final(self).model() == old(self).model(),
            is_outcome(r, final(self).pos(), parse_level(old(self).model(), old(self).pos(), OR_LEVEL as nat)),
            r is Ok ==> old(self).pos() < final(self).pos(),
        decreases old(self).tokens@.len() - old(self).position, 27nat,
    {
        self.parse_logical_or()
    }

    /// Parses at any level; levels from `PRIMARY_LEVEL` on read a primary.
    fn parse_at_level(&mut self, level: u8) -> (r: Result<AstNode, ParseError>)
        requires
            old(self).wf(),
            level <= PRIMARY_LEVEL,
        ensures
            final(self).wf(),
            final(self).model() == old(self).model(),
            is_outcome(r, final(self).pos(), parse_level(old(self).model(), old(self).pos(), level as nat)),
            r is Ok ==> old(self).pos() < final(self).pos(),
        decreases old(self).tokens@.len() - old(self).position, 3 * (8 - level) + 2,
    {
        match level {
            0 => self.parse_logical_or(),
            1 => self.parse_logical_and(),
            2 => self.parse_equality(),
            3 => self.parse_comparison(),
            4 => self.parse_term(),
            5 => self.parse_factor(),
            6 => self.parse_unary(),
            _ => self.parse_primary(),
        }
    }

    /// A binary level: an operand of the next level, then each operator of
    /// this level with the operand after it, folded from the left.
    fn parse_left_assoc(&mut self, level: u8) -> (r: Result<AstNode, ParseError>)
        requires
            old(self).wf(),
            level < UNARY_LEVEL,
        ensures
            final(self).wf(),
            final(self).model() == old(self).model(),
            is_outcome(r, final(self).pos(), parse_level(old(self).model(), old(self).pos(), level as nat)),
            r is Ok ==> old(self).pos() < final(self).pos(),
        decreases old(self).tokens@.len() - old(self).position, 3 * (8 - level),
    {
        let ghost ts = self.model();
        let ghost start = self.pos();
        let mut node = match self.parse_at_level(level + 1) {
            Ok(n) => n,
            Err(e) => return Err(e),
        };
        loop
            invariant
                self.wf(),
                self.model() == ts,
                ts == old(self).model(),
                start == old(self).pos(),
                start < self.pos(),
                level < UNARY_LEVEL,
                parse_level(ts, start, level as nat) == fold_level(ts, self.pos(), level as nat, node@),
            decreases ts.len() - self.pos(),
        {
            match self.operator_at(level) {
                None => return Ok(node),
                Some(op) => {
                    self.advance();
                    let right = match self.parse_at_level(level + 1) {
                        Ok(n) => n,
                        Err(e) => return Err(e),
                    };
                    node = AstNode::BinaryOp { op, left: Box::new(node), right: Box::new(right) };
                },
            }
        }
    }

    fn parse_logical_or(&mut self) -> (r: Result<AstNode, ParseError>)
        requires
            old(self).wf(),
        ensures
            final(self).wf(),
            final(self).model() == old(self).model(),
            is_outcome(r, final(self).pos(), parse_level(old(self).model(), old(self).pos(), OR_LEVEL as nat)),
            r is Ok ==> old(self).pos() < final(self).pos(),
        decreases old(self).tokens@.len() - old(self).position, 25nat,
    {
        self.parse_left_assoc(OR_LEVEL)
    }

    fn parse_logical_and(&mut self) -> (r: Result<AstNode, ParseError>)
        requires
            old(self).wf(),
        ensures
            final(self).wf(),
            final(self).model() == old(self).model(),
            is_outcome(r, final(self).pos(), parse_level(old(self).model(), old(self).pos(), AND_LEVEL as nat)),
            r is Ok ==> old(self).pos() < final(self).pos(),
        decreases old(self).tokens@.len() - old(self).position, 22nat,
    {
        self.parse_left_assoc(AND_LEVEL)
    }

    fn parse_equality(&mut self) -> (r: Result<AstNode, ParseError>)
        requires
            old(self).wf(),
        ensures
            final(self).wf(),
            final(self).model() == old(self).model(),
            is_outcome(r, final(self).pos(), parse_level(old(self).model(), old(self).pos(), EQUALITY_LEVEL as nat)),
            r is Ok ==> old(self).pos() < final(self).pos(),
        decreases old(self).tokens@.len() - old(self).position, 19nat,
    {
        self.parse_left_assoc(EQUALITY_LEVEL)
    }

    fn parse_comparison(&mut self) -> (r: Result<AstNode, ParseError>)
        requires
            old(self).wf(),
        ensures
            final(self).wf(),
            final(self).model() == old(self).model(),
            is_outcome(r, final(self).pos(), parse_level(old(self).model(), old(self).pos(), COMPARISON_LEVEL as nat)),
            r is Ok ==> old(self).pos() < final(self).pos(),
        decreases old(self).tokens@.len() - old(self).position, 16nat,
    {
        self.parse_left_assoc(COMPARISON_LEVEL)
    }

    fn parse_term(&mut self) -> (r: Result<AstNode, ParseError>)
        requires
            old(self).wf(),
        ensures
            final(self).wf(),
            final(self).model() == old(self).model(),
            is_outcome(r, final(self).pos(), parse_level(old(self).model(), old(self).pos(), ADDITIVE_LEVEL as nat)),
            r is Ok ==> old(self).pos() < final(self).pos(),
        decreases old(self).tokens@.len() - old(self).position, 13nat,
    {
        self.parse_left_assoc(ADDITIVE_LEVEL)
    }

    fn parse_factor(&mut self) -> (r: Result<AstNode, ParseError>)
        requires
            old(self).wf(),
        ensures
            final(self).wf(),
            final(self).model() == old(self).model(),
            is_outcome(r, final(self).pos(), parse_level(old(self).model(), old(self).pos(), MULTIPLICATIVE_LEVEL as nat)),
            r is Ok ==> old(self).pos() < final(self).pos(),
        decreases old(self).tokens@.len() - old(self).position, 10nat,
    {
        self.parse_left_assoc(MULTIPLICATIVE_LEVEL)
    }

    /// An optional `-` before a primary; `-e` reads as `0 - e`.
    fn parse_unary(&mut self) -> (r: Result<AstNode, ParseError>)
        requires
            old(self).wf(),
        ensures
            final(self).wf(),
            final(self).model() == old(self).model(),
            is_outcome(r, final(self).pos(), parse_level(old(self).model(), old(self).pos(), UNARY_LEVEL as nat)),
            r is Ok ==> old(self).pos() < final(self).pos(),
        decreases old(self).tokens@.len() - old(self).position, 7nat,
    {
        if self.match_token(&Token::Minus) {
            self.advance();
            let expr = match self.parse_primary() {
                Ok(n) => n,
                Err(e) => return Err(e),
            };
            let zero = "0".to_owned();
            proof {
                reveal_strlit("0");
            }
            assert(zero@ =~= seq!['0']);
            let left = AstNode::Number(zero);
            assert(left@ == Expr::Number(seq!['0']));
            return Ok(AstNode::BinaryOp {
                op: BinaryOperator::Minus,
                left: Box::new(left),
                right: Box::new(expr),
            });
        }
        self.parse_primary()
    }

    /// A number, an identifier, or an expression in parentheses.
    fn parse_primary(&mut self) -> (r: Result<AstNode, ParseError>)
        requires
            old(self).wf(),
        ensures
            final(self).wf(),
            final(self).model() == old(self).model(),
            is_outcome(r, final(self).pos(), parse_level(old(self).model(), old(self).pos(), PRIMARY_LEVEL as nat)),
            r is Ok ==> old(self).pos() < final(self).pos(),
        decreases old(self).tokens@.len() - old(self).position, 4nat,
    {
        let tokens = self.tokens;
        if self.position >= tokens.len() {
            return Err(ParseError::UnexpectedEndOfInput);
        }
        match &tokens[self.position] {
            Token::Number(n) => {
                self.advance();
                Ok(AstNode::Number(n.clone()))
            },
            Token::Identifier(id) => {
                self.advance();
                Ok(AstNode::Identifier(id.clone()))
            },
            Token::LeftParenthesis => {
                self.advance();
                let expr = match self.parse_expression() {
                    Ok(n) => n,
                    Err(e) => return Err(e),
                };
                if self.match_token(&Token::RightParenthesis) {
                    self.advance();
                    Ok(expr)
                } else if self.position < tokens.len() {
                    Err(ParseError::UnexpectedToken)
                } else {
                    Err(ParseError::UnexpectedEndOfInput)
                }
            },
            _ => Err(ParseError::UnexpectedToken),
        }
    }

    /// Moves the cursor past the token under it.
    fn advance(&mut self)
        requires
            old(self).pos() < old(self).model().len(),
        ensures
            final(self).wf(),
            final(self).model() == old(self).model(),
            final(self).pos() == old(self).pos() + 1,
    {
        assert(self.tokens@.len() == self.tokens.len());
        self.position = self.position + 1;
    }

    /// The operator of the given level under the cursor, if there is one.
    fn operator_at(&self, level: u8) -> (r: Option<BinaryOperator>)
        ensures
            r == operator_at(self.model(), self.pos(), level as nat),
    {
        if self.position < self.tokens.len() {
            match binary_operator_of(&self.tokens[self.position]) {
                Some((op, l)) => if l == level {
                    Some(op)
                } else {
                    None
                },
                None => None,
            }
        } else {
            None
        }
    }

    /// Whether the token under the cursor is `token`.
    fn match_token(&self, token: &Token) -> (r: bool)
        ensures
            r == (0 <= self.pos() < self.model().len() && self.model()[self.pos()] == token@),
    {
        if self.position < self.tokens.len() {
            &self.tokens[self.position] == token
        } else {
            false
        }
    }
}

/// Parses the expression at the start of `tokens`. Tokens after it are left
/// unread.
pub fn parse(tokens: &[Token]) -> (r: Result<AstNode, ParseError>)
    ensures
        result_view(r) == parse_tokens(tokens_view(tokens@)),
{
    let mut parser = Parser::new(tokens);
    parser.parse()
}

} // verus!
