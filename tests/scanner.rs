use mini_lang_compiler::{tokenize, Token};

fn number(text: &str) -> Token {
    Token::Number(text.to_string())
}

fn identifier(name: &str) -> Token {
    Token::Identifier(name.to_string())
}

#[test]
fn empty_input_gives_no_tokens() {
    assert!(tokenize("").is_empty());
}

#[test]
fn scanning_twice_gives_equal_tokens() {
    let input = "x1 <= (3.5 + y) && !z";
    assert_eq!(tokenize(input), tokenize(input));
}

#[test]
fn spaces_do_not_matter() {
    assert_eq!(tokenize(" 3 + 4 "), tokenize("3+4"));
    assert_eq!(tokenize("3+4"), vec![number("3"), Token::Plus, number("4")]);
}

#[test]
fn unknown_characters_are_dropped() {
    assert_eq!(tokenize("3 @ 4"), tokenize("3 4"));
    assert_eq!(tokenize("3 4"), vec![number("3"), number("4")]);
    assert!(tokenize("@#$%^~").is_empty());
    assert_eq!(tokenize("a@b"), vec![identifier("a"), identifier("b")]);
    assert_eq!(tokenize("1#2"), vec![number("1"), number("2")]);
}

#[test]
fn single_character_operators() {
    assert_eq!(
        tokenize("+-*/()"),
        vec![
            Token::Plus,
            Token::Minus,
            Token::Multiply,
            Token::Divide,
            Token::LeftParenthesis,
            Token::RightParenthesis,
        ]
    );
}

#[test]
fn two_character_operators() {
    assert_eq!(
        tokenize("== != <= >= && ||"),
        vec![
            Token::Equal,
            Token::NotEqual,
            Token::LessThanOrEqual,
            Token::GreaterThanOrEqual,
            Token::And,
            Token::Or,
        ]
    );
}

#[test]
fn lone_comparison_signs() {
    assert_eq!(tokenize("< >"), vec![Token::LessThan, Token::GreaterThan]);
    assert_eq!(tokenize("<>"), vec![Token::LessThan, Token::GreaterThan]);
}

#[test]
fn incomplete_two_character_operators_are_dropped() {
    assert!(tokenize("= ! & |").is_empty());
    assert_eq!(tokenize("a = 1"), vec![identifier("a"), number("1")]);
}

#[test]
fn number_literals_keep_their_text() {
    assert_eq!(tokenize("42"), vec![number("42")]);
    assert_eq!(tokenize("3.25"), vec![number("3.25")]);
    assert_eq!(tokenize("7."), vec![number("7.")]);
}

#[test]
fn a_second_decimal_point_ends_the_literal() {
    assert_eq!(tokenize("1.2.3"), vec![number("1.2"), number("3")]);
}

#[test]
fn identifiers_take_letters_digits_and_underscores() {
    assert_eq!(tokenize("foo_bar1 x"), vec![identifier("foo_bar1"), identifier("x")]);
    assert_eq!(tokenize("a1b+c"), vec![identifier("a1b"), Token::Plus, identifier("c")]);
}

#[test]
fn identifiers_may_be_non_ascii() {
    assert_eq!(tokenize("été * 2"), vec![identifier("été"), Token::Multiply, number("2")]);
}

#[test]
fn digits_start_a_number_not_an_identifier() {
    assert_eq!(tokenize("2x"), vec![number("2"), identifier("x")]);
}
