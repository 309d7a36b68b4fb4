use lox::expression::Expression;
use lox::expression::Value::{False, Float, Str, True};
use lox::parse::{parse, Error};
use lox::scan::{Token, TokenType};
use std::collections::VecDeque;

fn number(text: &str) -> TokenType {
    TokenType::Number(text.to_string())
}

fn float(text: &str) -> lox::expression::Value {
    Float(text.to_string())
}

#[test]
fn test_placeholder() {
    let mut tokens = VecDeque::new();
    tokens.push_back(Token::new(TokenType::EOF, 0));
    assert_eq!(Err(Error::Placeholder), parse(tokens));
}

#[test]
fn test_literal() {
    let mut tokens = VecDeque::new();
    tokens.push_back(Token::new(number("5.0"), 0));
    let expected = Box::new(Expression::Literal { value: float("5.0") });
    assert_eq!(Ok(vec![expected]), parse(tokens));

    tokens = VecDeque::new();
    tokens.push_back(Token::new(TokenType::Str("foo".to_string()), 0));
    let expected = Box::new(Expression::Literal {
        value: Str("foo".to_string()),
    });
    assert_eq!(Ok(vec![expected]), parse(tokens));

    tokens = VecDeque::new();
    tokens.push_back(Token::new(TokenType::False, 0));
    let expected = Box::new(Expression::Literal { value: False });
    assert_eq!(Ok(vec![expected]), parse(tokens));

    tokens = VecDeque::new();
    tokens.push_back(Token::new(TokenType::True, 0));
    let expected = Box::new(Expression::Literal { value: True });
    assert_eq!(Ok(vec![expected]), parse(tokens));
}

#[test]
fn test_unary() {
    let mut tokens = VecDeque::new();
    tokens.push_back(Token::new(TokenType::Minus, 0));
    tokens.push_back(Token::new(number("5.0"), 0));
    let expected = Box::new(Expression::Unary {
        operator: Token::new(TokenType::Minus, 0),
        expression: Box::new(Expression::Literal { value: float("5.0") }),
    });
    assert_eq!(Ok(vec![expected]), parse(tokens));

    tokens = VecDeque::new();
    tokens.push_back(Token::new(TokenType::Bang, 0));
    tokens.push_back(Token::new(TokenType::True, 0));
    let expected = Box::new(Expression::Unary {
        operator: Token::new(TokenType::Bang, 0),
        expression: Box::new(Expression::Literal { value: True }),
    });
    assert_eq!(Ok(vec![expected]), parse(tokens));
}

fn check_binary(type_: TokenType) {
    let mut tokens = VecDeque::new();
    tokens.push_back(Token::new(number("5.0"), 0));
    tokens.push_back(Token::new(type_.clone(), 0));
    tokens.push_back(Token::new(number("6.0"), 0));
    let expected = Box::new(Expression::Binary {
        left: Box::new(Expression::Literal { value: float("5.0") }),
        operator: Token::new(type_, 0),
        right: Box::new(Expression::Literal { value: float("6.0") }),
    });
    assert_eq!(Ok(vec![expected]), parse(tokens));
}

#[test]
fn test_factor() {
    check_binary(TokenType::Star);
    check_binary(TokenType::Slash);
}

#[test]
fn test_term() {
    check_binary(TokenType::Plus);
    check_binary(TokenType::Minus);
}

#[test]
fn test_comparison() {
    check_binary(TokenType::Greater);
    check_binary(TokenType::GreaterEqual);
    check_binary(TokenType::Less);
    check_binary(TokenType::LessEqual);
}

#[test]
fn test_equality() {
    check_binary(TokenType::EqualEqual);
    check_binary(TokenType::BangEqual);
}

#[test]
fn test_grouping() {
    let mut tokens = VecDeque::new();
    tokens.push_back(Token::new(TokenType::LeftParen, 0));
    tokens.push_back(Token::new(number("5.0"), 0));
    tokens.push_back(Token::new(TokenType::RightParen, 0));
    let expected = Box::new(Expression::Grouping {
        expression: Box::new(Expression::Literal { value: float("5.0") }),
    });
    assert_eq!(Ok(vec![expected]), parse(tokens));
}

#[test]
fn test_grouped_expression() {
    let mut tokens = VecDeque::new();
    tokens.push_back(Token::new(TokenType::LeftParen, 0));
    tokens.push_back(Token::new(number("5.0"), 0));
    tokens.push_back(Token::new(TokenType::Star, 0));
    tokens.push_back(Token::new(number("6.0"), 0));
    tokens.push_back(Token::new(TokenType::RightParen, 0));
    let expected = Box::new(Expression::Grouping {
        expression: Box::new(Expression::Binary {
            left: Box::new(Expression::Literal { value: float("5.0") }),
            operator: Token::new(TokenType::Star, 0),
            right: Box::new(Expression::Literal { value: float("6.0") }),
        }),
    });
    assert_eq!(Ok(vec![expected]), parse(tokens));
}

#[test]
fn test_grouping_unclosed() {
    let mut tokens = VecDeque::new();
    tokens.push_back(Token::new(TokenType::LeftParen, 0));
    tokens.push_back(Token::new(number("5.0"), 0));
    assert_eq!(Err(Error::UnclosedParen), parse(tokens));
}

#[test]
fn test_grouping_unclosed_more_tokens() {
    let mut tokens = VecDeque::new();
    tokens.push_back(Token::new(TokenType::LeftParen, 0));
    tokens.push_back(Token::new(number("5.0"), 0));
    tokens.push_back(Token::new(number("5.0"), 0));
    assert_eq!(Err(Error::UnclosedParen), parse(tokens));
}
