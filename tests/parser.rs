use mini_lang_compiler::{parse, tokenize, AstNode, BinaryOperator, ParseError, Parser, Token};

fn num(text: &str) -> AstNode {
    AstNode::Number(text.to_string())
}

fn ident(name: &str) -> AstNode {
    AstNode::Identifier(name.to_string())
}

fn bin(op: BinaryOperator, left: AstNode, right: AstNode) -> AstNode {
    AstNode::BinaryOp { op, left: Box::new(left), right: Box::new(right) }
}

fn parse_text(input: &str) -> Result<AstNode, ParseError> {
    let tokens = tokenize(input);
    parse(&tokens)
}

#[test]
fn test_simple_expression() {
    let input = "3 + 4 * 2";
    let tokens = tokenize(input);
    let mut parser = Parser::new(&tokens);
    let ast = parser.parse().unwrap();
    let expected_ast = AstNode::BinaryOp {
        op: BinaryOperator::Plus,
        left: Box::new(AstNode::Number("3".to_string())),
        right: Box::new(AstNode::BinaryOp {
            op: BinaryOperator::Multiply,
            left: Box::new(AstNode::Number("4".to_string())),
            right: Box::new(AstNode::Number("2".to_string())),
        }),
    };
    assert_eq!(ast, expected_ast);
}

#[test]
fn test_nested_expression() {
    let input = "(1 + 2) * (3 + 4)";
    let tokens = tokenize(input);
    let mut parser = Parser::new(&tokens);
    let ast = parser.parse().unwrap();
    let expected_ast = AstNode::BinaryOp {
        op: BinaryOperator::Multiply,
        left: Box::new(AstNode::BinaryOp {
            op: BinaryOperator::Plus,
            left: Box::new(AstNode::Number("1".to_string())),
            right: Box::new(AstNode::Number("2".to_string())),
        }),
        right: Box::new(AstNode::BinaryOp {
            op: BinaryOperator::Plus,
            left: Box::new(AstNode::Number("3".to_string())),
            right: Box::new(AstNode::Number("4".to_string())),
        }),
    };
    assert_eq!(ast, expected_ast);
}

#[test]
fn test_logical_expression() {
    let input = "a && b || c";
    let tokens = tokenize(input);
    let mut parser = Parser::new(&tokens);
    let ast = parser.parse().unwrap();
    let expected_ast = AstNode::BinaryOp {
        op: BinaryOperator::Or,
        left: Box::new(AstNode::BinaryOp {
            op: BinaryOperator::And,
            left: Box::new(AstNode::Identifier("a".into())),
            right: Box::new(AstNode::Identifier("b".into())),
        }),
        right: Box::new(AstNode::Identifier("c".into())),
    };
    assert_eq!(ast, expected_ast);
}

#[test]
fn test_comparison_expression() {
    let input = "3 < 4 == 5 > 2";
    let tokens = tokenize(input);
    let mut parser = Parser::new(&tokens);
    let ast = parser.parse().unwrap();
    let expected_ast = AstNode::BinaryOp {
        op: BinaryOperator::Equal,
        left: Box::new(AstNode::BinaryOp {
            op: BinaryOperator::LessThan,
            left: Box::new(AstNode::Number("3".to_string())),
            right: Box::new(AstNode::Number("4".to_string())),
        }),
        right: Box::new(AstNode::BinaryOp {
            op: BinaryOperator::GreaterThan,
            left: Box::new(AstNode::Number("5".to_string())),
            right: Box::new(AstNode::Number("2".to_string())),
        }),
    };
    assert_eq!(ast, expected_ast);
}

#[test]
fn subtraction_is_left_associative() {
    let expected = bin(
        BinaryOperator::Minus,
        bin(BinaryOperator::Minus, num("3"), num("2")),
        num("1"),
    );
    assert_eq!(parse_text("3 - 2 - 1"), Ok(expected));
}

#[test]
fn division_is_left_associative() {
    let expected = bin(
        BinaryOperator::Divide,
        bin(BinaryOperator::Divide, num("8"), num("4")),
        num("2"),
    );
    assert_eq!(parse_text("8 / 4 / 2"), Ok(expected));
}

#[test]
fn and_binds_tighter_than_or_on_the_right() {
    let expected = bin(
        BinaryOperator::Or,
        ident("a"),
        bin(BinaryOperator::And, ident("b"), ident("c")),
    );
    assert_eq!(parse_text("a || b && c"), Ok(expected));
}

#[test]
fn comparison_binds_tighter_than_and() {
    let expected = bin(
        BinaryOperator::And,
        bin(BinaryOperator::LessThanOrEqual, ident("x"), num("1")),
        bin(BinaryOperator::NotEqual, ident("y"), num("2")),
    );
    assert_eq!(parse_text("x <= 1 && y != 2"), Ok(expected));
}

#[test]
fn additive_binds_tighter_than_comparison() {
    let expected = bin(
        BinaryOperator::GreaterThanOrEqual,
        bin(BinaryOperator::Plus, num("1"), num("2")),
        num("3"),
    );
    assert_eq!(parse_text("1 + 2 >= 3"), Ok(expected));
}

#[test]
fn unary_minus_subtracts_from_zero() {
    let expected = bin(BinaryOperator::Minus, num("0"), num("5"));
    assert_eq!(parse_text("-5"), Ok(expected));
}

#[test]
fn unary_minus_applies_to_a_group() {
    let expected = bin(
        BinaryOperator::Multiply,
        bin(BinaryOperator::Minus, num("0"), bin(BinaryOperator::Plus, ident("a"), num("1"))),
        num("2"),
    );
    assert_eq!(parse_text("-(a + 1) * 2"), Ok(expected));
}

#[test]
fn double_unary_minus_is_rejected() {
    assert_eq!(parse_text("--5"), Err(ParseError::UnexpectedToken));
}

#[test]
fn empty_token_sequence_ends_early() {
    let tokens: Vec<Token> = Vec::new();
    assert_eq!(parse(&tokens), Err(ParseError::UnexpectedEndOfInput));
}

#[test]
fn unclosed_parenthesis_ends_early() {
    assert_eq!(parse_text("(1 + 2"), Err(ParseError::UnexpectedEndOfInput));
}

#[test]
fn wrong_token_in_place_of_closing_parenthesis() {
    assert_eq!(parse_text("(1 + 2 3"), Err(ParseError::UnexpectedToken));
}

#[test]
fn missing_right_operand_ends_early() {
    assert_eq!(parse_text("1 +"), Err(ParseError::UnexpectedEndOfInput));
}

#[test]
fn operator_in_operand_position_is_unexpected() {
    assert_eq!(parse_text(") 1"), Err(ParseError::UnexpectedToken));
    assert_eq!(parse_text("1 * / 2"), Err(ParseError::UnexpectedToken));
}

#[test]
fn tokens_after_the_expression_are_left_unread() {
    let tokens = tokenize("1 2");
    let mut parser = Parser::new(&tokens);
    assert_eq!(parser.parse(), Ok(num("1")));
    assert_eq!(parser.parse(), Ok(num("2")));
    assert_eq!(parser.parse(), Err(ParseError::UnexpectedEndOfInput));
}

#[test]
fn parsing_twice_gives_equal_trees() {
    let tokens = tokenize("(a + 1) * b - 3 / c");
    assert_eq!(parse(&tokens), parse(&tokens));
    assert!(parse(&tokens).is_ok());
}
