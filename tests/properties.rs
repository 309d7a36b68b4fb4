use lox::bytecode::{Bytecode, Instruction};
use lox::chunk::{Chunk, Instruction as ChunkInstruction, OpCode};
use lox::expression::{print, Expression, Value};
use lox::parse::{parse, Error as ParseError};
use lox::scan::{scan_tokens, Error, Source, Token, TokenType};
use lox::value::Value as MachineValue;
use lox::virtual_machine::{Error as MachineError, VirtualMachine};
use std::collections::VecDeque;

fn tokens(kinds: Vec<TokenType>) -> VecDeque<Token> {
    kinds.into_iter().map(|k| Token::new(k, 0)).collect()
}

fn number(text: &str) -> TokenType {
    TokenType::Number(text.to_string())
}

fn literal(text: &str) -> Box<Expression> {
    Box::new(Expression::Literal {
        value: Value::Float(text.to_string()),
    })
}

fn binary(left: Box<Expression>, operator: TokenType, right: Box<Expression>) -> Box<Expression> {
    Box::new(Expression::Binary {
        left,
        operator: Token::new(operator, 0),
        right,
    })
}

#[test]
fn punctuation_gives_one_token_per_mark() {
    let marks = [
        ('(', TokenType::LeftParen),
        (')', TokenType::RightParen),
        ('{', TokenType::LeftBrace),
        ('}', TokenType::RightBrace),
        (',', TokenType::Comma),
        ('.', TokenType::Dot),
        ('-', TokenType::Minus),
        ('+', TokenType::Plus),
        (';', TokenType::Semicolon),
        ('*', TokenType::Star),
    ];
    let source: String = "*;(.)-,}+{**".to_string();
    let mut expected = Vec::new();
    for c in source.chars() {
        let kind = marks.iter().find(|(m, _)| *m == c).unwrap().1.clone();
        expected.push(Token::new(kind, 0));
    }
    expected.push(Token::new(TokenType::EOF, 0));
    assert_eq!(Ok(expected), scan_tokens(source));
}

#[test]
fn empty_source_is_only_end_of_stream() {
    assert_eq!(Ok(vec![Token::new(TokenType::EOF, 0)]), scan_tokens(String::new()));
}

#[test]
fn comment_runs_to_end_of_line() {
    assert_eq!(
        Ok(vec![
            Token::new(TokenType::Slash, 1),
            Token::new(TokenType::EOF, 1)
        ]),
        scan_tokens("//anything\n/".to_string())
    );
}

#[test]
fn comment_after_a_token_is_skipped() {
    assert_eq!(
        Ok(vec![
            Token::new(number("1"), 0),
            Token::new(TokenType::Plus, 1),
            Token::new(TokenType::EOF, 1)
        ]),
        scan_tokens("1 // one\n+ // plus".to_string())
    );
}

#[test]
fn unterminated_string_reports_line_at_end_of_input() {
    assert_eq!(
        Err(Error::UnterminatedString { line: 0 }),
        scan_tokens("\"foo".to_string())
    );
    assert_eq!(
        Err(Error::UnterminatedString { line: 3 }),
        scan_tokens("\"foo\n\n\nbar".to_string())
    );
}

#[test]
fn string_keeps_embedded_newlines() {
    assert_eq!(
        Ok(vec![
            Token::new(TokenType::Str("a\nb".to_string()), 1),
            Token::new(TokenType::EOF, 1)
        ]),
        scan_tokens("\"a\nb\"".to_string())
    );
}

#[test]
fn bad_character_is_reported() {
    assert_eq!(
        Err(Error::BadChar { c: '&', line: 0 }),
        scan_tokens("&".to_string())
    );
    assert_eq!(
        Err(Error::BadChar { c: '#', line: 2 }),
        scan_tokens("1\n\n+ #".to_string())
    );
}

#[test]
fn number_takes_at_most_one_dot() {
    assert_eq!(
        Ok(vec![
            Token::new(number("1.2"), 0),
            Token::new(TokenType::Dot, 0),
            Token::new(number("3"), 0),
            Token::new(TokenType::EOF, 0)
        ]),
        scan_tokens("1.2.3".to_string())
    );
    assert_eq!(
        Ok(vec![
            Token::new(number("7."), 0),
            Token::new(TokenType::EOF, 0)
        ]),
        scan_tokens("7.".to_string())
    );
    assert_eq!(
        Ok(vec![
            Token::new(number("1."), 0),
            Token::new(TokenType::Dot, 0),
            Token::new(number("2"), 0),
            Token::new(TokenType::EOF, 0)
        ]),
        scan_tokens("1..2".to_string())
    );
}

#[test]
fn source_state_after_errors() {
    let mut bad = Source::new("&+".to_string());
    assert_eq!(Some(Err(Error::BadChar { c: '&', line: 0 })), bad.next());
    assert_eq!(Some(Ok(Token::new(TokenType::Plus, 0))), bad.next());
    let mut open = Source::new("\"a\nb".to_string());
    assert_eq!(Some(Err(Error::UnterminatedString { line: 1 })), open.next());
    assert_eq!(Some(Ok(Token::new(TokenType::EOF, 1))), open.next());
    assert_eq!(None, open.next());
    assert_eq!(None, open.next());
}

#[test]
fn each_keyword_scans_to_its_token() {
    let keywords = [
        ("and", TokenType::And),
        ("class", TokenType::Class),
        ("else", TokenType::Else),
        ("false", TokenType::False),
        ("fun", TokenType::Fun),
        ("for", TokenType::For),
        ("if", TokenType::If),
        ("nil", TokenType::Nil),
        ("or", TokenType::Or),
        ("print", TokenType::Print),
        ("return", TokenType::Return),
        ("super", TokenType::Super),
        ("this", TokenType::This),
        ("true", TokenType::True),
        ("var", TokenType::Var),
        ("while", TokenType::While),
    ];
    for (word, kind) in keywords {
        assert_eq!(
            Ok(vec![Token::new(kind, 0), Token::new(TokenType::EOF, 0)]),
            scan_tokens(word.to_string())
        );
    }
    assert_eq!(
        Ok(vec![
            Token::new(TokenType::Identifier("orchidX".to_string()), 0),
            Token::new(TokenType::EOF, 0)
        ]),
        scan_tokens("orchidX".to_string())
    );
    assert_eq!(
        Ok(vec![
            Token::new(TokenType::Identifier("_or2".to_string()), 0),
            Token::new(TokenType::EOF, 0)
        ]),
        scan_tokens("_or2".to_string())
    );
}

#[test]
fn source_gives_nothing_after_end_of_stream() {
    let mut source = Source::new(" ".to_string());
    assert_eq!(Some(Ok(Token::new(TokenType::EOF, 0))), source.next());
    assert_eq!(None, source.next());
}

#[test]
fn token_text_and_type() {
    assert_eq!(">=", Token::new(TokenType::GreaterEqual, 4).text());
    assert_eq!("EOF", Token::new(TokenType::EOF, 0).text());
    assert_eq!("12.5", Token::new(number("12.5"), 0).text());
    let token = Token::new(TokenType::Identifier("x".to_string()), 3);
    assert_eq!(TokenType::Identifier("x".to_string()), token.token_type());
}

#[test]
fn multiplication_binds_tighter_than_subtraction() {
    let input = tokens(vec![
        number("5"),
        TokenType::Minus,
        number("6"),
        TokenType::Star,
        number("2"),
    ]);
    let expected = binary(
        literal("5"),
        TokenType::Minus,
        binary(literal("6"), TokenType::Star, literal("2")),
    );
    assert_eq!(Ok(vec![expected]), parse(input));
}

#[test]
fn subtraction_is_left_associative() {
    let input = tokens(vec![
        number("1"),
        TokenType::Minus,
        number("2"),
        TokenType::Minus,
        number("3"),
    ]);
    let expected = binary(
        binary(literal("1"), TokenType::Minus, literal("2")),
        TokenType::Minus,
        literal("3"),
    );
    assert_eq!(Ok(vec![expected]), parse(input));
}

#[test]
fn grouping_and_unclosed_groups() {
    let closed = tokens(vec![TokenType::LeftParen, number("5"), TokenType::RightParen]);
    let expected = Box::new(Expression::Grouping {
        expression: literal("5"),
    });
    assert_eq!(Ok(vec![expected]), parse(closed));
    let unclosed = tokens(vec![TokenType::LeftParen, number("5")]);
    assert_eq!(Err(ParseError::UnclosedParen), parse(unclosed));
    let garbage = tokens(vec![TokenType::LeftParen, number("5"), number("5")]);
    assert_eq!(Err(ParseError::UnclosedParen), parse(garbage));
}

#[test]
fn parse_edge_cases() {
    assert_eq!(Ok(vec![]), parse(VecDeque::new()));
    let twice_negated = tokens(vec![TokenType::Minus, TokenType::Minus, number("5")]);
    assert_eq!(Err(ParseError::Placeholder), parse(twice_negated));
    let two = tokens(vec![number("1"), number("2")]);
    assert_eq!(Ok(vec![literal("1"), literal("2")]), parse(two));
    let scanned = scan_tokens("1 + 2".to_string()).unwrap();
    assert_eq!(Err(ParseError::Placeholder), parse(VecDeque::from(scanned)));
}

#[test]
fn printer_renders_prefix_form() {
    let expression = Expression::Binary {
        left: Box::new(Expression::Unary {
            operator: Token::new(TokenType::Minus, 0),
            expression: Box::new(Expression::Literal {
                value: Value::Int(123),
            }),
        }),
        operator: Token::new(TokenType::Star, 0),
        right: Box::new(Expression::Grouping {
            expression: literal("45.67"),
        }),
    };
    assert_eq!("(* (- 123) (group 45.67))", print(&expression));
}

#[test]
fn printer_renders_values() {
    let value = |v: Value| print(&Expression::Literal { value: v });
    assert_eq!("-42", value(Value::Int(-42)));
    assert_eq!("0", value(Value::Int(0)));
    assert_eq!("-9223372036854775808", value(Value::Int(i64::MIN)));
    assert_eq!("hi there", value(Value::Str("hi there".to_string())));
    assert_eq!("true", value(Value::True));
    assert_eq!("false", Value::False.text());
}

#[test]
fn machine_add_is_not_implemented() {
    let mut bytecode = Bytecode::new();
    bytecode.instruction(Instruction::Constant { value: MachineValue::FloatingPoint(1.0f64.to_bits()) }, 0);
    bytecode.instruction(Instruction::Constant { value: MachineValue::FloatingPoint(2.0f64.to_bits()) }, 0);
    bytecode.instruction(Instruction::Add, 1);
    bytecode.instruction(Instruction::Return, 1);
    assert_eq!(Err(MachineError::NotImplemented), VirtualMachine::new().execute(bytecode));
}

#[test]
fn machine_runs_past_the_end_without_return() {
    let mut bytecode = Bytecode::new();
    bytecode.instruction(Instruction::Constant { value: MachineValue::FloatingPoint(1.5f64.to_bits()) }, 0);
    bytecode.instruction(Instruction::Negate, 0);
    assert_eq!(2, bytecode.len());
    assert_eq!(Instruction::Negate, bytecode.get(1));
    assert_eq!(0, bytecode.line(1));
    assert_eq!(
        Err(MachineError::InvalidInstructionPointer),
        VirtualMachine::new().execute(bytecode)
    );
}

#[test]
fn negation_flips_only_the_sign() {
    let value = MachineValue::FloatingPoint((-0.25f64).to_bits());
    assert_eq!(MachineValue::FloatingPoint(0.25f64.to_bits()), value.neg());
}

#[test]
fn chunk_listing() {
    let mut chunk = Chunk::new();
    chunk.write(ChunkInstruction::new(OpCode::Return));
    chunk.write(ChunkInstruction::new(OpCode::Return));
    assert_eq!("0: Return\n1: Return\n", chunk.listing());
    assert_eq!("", Chunk::new().listing());
}
