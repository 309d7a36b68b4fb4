//! The parser: recursive descent over a token sequence, one function per
//! precedence level, each binary level folding to the left.
//!
//! ```text
//! expression  -> equality
//! equality    -> comparison ( ( "==" | "!=" ) comparison )*
//! comparison  -> term ( ( ">" | ">=" | "<" | "<=" ) term )*
//! term        -> factor ( ( "+" | "-" ) factor )*
//! factor      -> unary ( ( "*" | "/" ) unary )*
//! unary       -> ( "-" | "!" ) primary | primary
//! primary     -> NUMBER | STRING | "true" | "false" | "(" expression ")"
//! ```
use std::collections::VecDeque;
use vstd::prelude::*;
use crate::expression::{Expression, Value};
use crate::scan::{Token, TokenType};

verus! {

/// A syntax error: a generic one where no rule applies, or a group whose
/// closing parenthesis is missing.
#[derive(Clone, Copy, Debug, PartialEq, Eq, Structural)]
pub enum Error {
    Placeholder,
    UnclosedParen,
}

/// What parsing one rule from the front of a token sequence gives: the tree
/// and the tokens after it, or the error.
pub type Parsed = Result<(Expression, Seq<Token>), Error>;

pub open spec fn is_equality_op(t: TokenType) -> bool {
    t is EqualEqual || t is BangEqual
}

pub open spec fn is_comparison_op(t: TokenType) -> bool {
    t is Greater || t is GreaterEqual || t is Less || t is LessEqual
}

pub open spec fn is_term_op(t: TokenType) -> bool {
    t is Minus || t is Plus
}

pub open spec fn is_factor_op(t: TokenType) -> bool {
    t is Slash || t is Star
}

pub open spec fn is_unary_op(t: TokenType) -> bool {
    t is Minus || t is Bang
}

pub open spec fn binary(left: Expression, operator: Token, right: Expression) -> Expression {
    Expression::Binary { left: Box::new(left), operator, right: Box::new(right) }
}

// Every rule that succeeds consumes at least one token. The rules below say
// so where they continue after a sub-rule (`rest.len() < ts.len()`): that is
// what makes the recursion well founded, and the parser proves it each time.

pub open spec fn primary_rule(ts: Seq<Token>) -> Parsed
    decreases ts.len(), 0nat,
{
    if ts.len() == 0 {
        Err(Error::Placeholder)
    } else {
        let rest = ts.drop_first();
        match ts[0].type_ {
            TokenType::LeftParen => match expression_rule(rest) {
                Err(e) => Err(e),
                Ok((inner, after)) => if after.len() > 0 && after[0].type_ is RightParen {
                    Ok((Expression::Grouping { expression: Box::new(inner) }, after.drop_first()))
                } else {
                    Err(Error::UnclosedParen)
                },
            },
            TokenType::Number(n) => Ok((Expression::Literal { value: Value::Float(n) }, rest)),
            TokenType::Str(s) => Ok((Expression::Literal { value: Value::Str(s) }, rest)),
            TokenType::True => Ok((Expression::Literal { value: Value::True }, rest)),
            TokenType::False => Ok((Expression::Literal { value: Value::False }, rest)),
            _ => Err(Error::Placeholder),
        }
    }
}

pub open spec fn unary_rule(ts: Seq<Token>) -> Parsed
    decreases ts.len(), 1nat,
{
    if ts.len() > 0 && is_unary_op(ts[0].type_) {
        match primary_rule(ts.drop_first()) {
            Err(e) => Err(e),
            Ok((inner, rest)) => Ok(
                (Expression::Unary { operator: ts[0], expression: Box::new(inner) }, rest),
            ),
        }
    } else {
        primary_rule(ts)
    }
}

/// The factor operators that follow `left`, with their operands.
pub open spec fn factor_tail(left: Expression, ts: Seq<Token>) -> Parsed
    decreases ts.len(), 2nat,
{
    if ts.len() > 0 && is_factor_op(ts[0].type_) {
        match unary_rule(ts.drop_first()) {
            Err(e) => Err(e),
            Ok((right, rest)) => if rest.len() < ts.len() {
                factor_tail(binary(left, ts[0], right), rest)
            } else {
                Err(Error::Placeholder)
            },
        }
    } else {
        Ok((left, ts))
    }
}

pub open spec fn factor_rule(ts: Seq<Token>) -> Parsed
    decreases ts.len(), 3nat,
{
    match unary_rule(ts) {
        Err(e) => Err(e),
        Ok((left, rest)) => if rest.len() < ts.len() {
            factor_tail(left, rest)
        } else {
            Err(Error::Placeholder)
        },
    }
}

/// The term operators that follow `left`, with their operands.
pub open spec fn term_tail(left: Expression, ts: Seq<Token>) -> Parsed
    decreases ts.len(), 4nat,
{
    if ts.len() > 0 && is_term_op(ts[0].type_) {
        match factor_rule(ts.drop_first()) {
            Err(e) => Err(e),
            Ok((right, rest)) => if rest.len() < ts.len() {
                term_tail(binary(left, ts[0], right), rest)
            } else {
                Err(Error::Placeholder)
            },
        }
    } else {
        Ok((left, ts))
    }
}

pub open spec fn term_rule(ts: Seq<Token>) -> Parsed
    decreases ts.len(), 5nat,
{
    match factor_rule(ts) {
        Err(e) => Err(e),
        Ok((left, rest)) => if rest.len() < ts.len() {
            term_tail(left, rest)
        } else {
            Err(Error::Placeholder)
        },
    }
}

/// The comparison operators that follow `left`, with their operands.
pub open spec fn comparison_tail(left: Expression, ts: Seq<Token>) -> Parsed
    decreases ts.len(), 6nat,
{
    if ts.len() > 0 && is_comparison_op(ts[0].type_) {
        match term_rule(ts.drop_first()) {
            Err(e) => Err(e),
            Ok((right, rest)) => if rest.len() < ts.len() {
                comparison_tail(binary(left, ts[0], right), rest)
            } else {
                Err(Error::Placeholder)
            },
        }
    } else {
        Ok((left, ts))
    }
}

pub open spec fn comparison_rule(ts: Seq<Token>) -> Parsed
    decreases ts.len(), 7nat,
{
    match term_rule(ts) {
        Err(e) => Err(e),
        Ok((left, rest)) => if rest.len() < ts.len() {
            comparison_tail(left, rest)
        } else {
            Err(Error::Placeholder)
        },
    }
}

/// The equality operators that follow `left`, with their operands.
pub open spec fn equality_tail(left: Expression, ts: Seq<Token>) -> Parsed
    decreases ts.len(), 8nat,
{
    if ts.len() > 0 && is_equality_op(ts[0].type_) {
        match comparison_rule(ts.drop_first()) {
            Err(e) => Err(e),
            Ok((right, rest)) => if rest.len() < ts.len() {
                equality_tail(binary(left, ts[0], right), rest)
            } else {
                Err(Error::Placeholder)
            },
        }
    } else {
        Ok((left, ts))
    }
}

pub open spec fn equality_rule(ts: Seq<Token>) -> Parsed
    decreases ts.len(), 9nat,
{
    match comparison_rule(ts) {
        Err(e) => Err(e),
        Ok((left, rest)) => if rest.len() < ts.len() {
            equality_tail(left, rest)
        } else {
            Err(Error::Placeholder)
        },
    }
}

pub open spec fn expression_rule(ts: Seq<Token>) -> Parsed
    decreases ts.len(), 10nat,
{
    equality_rule(ts)
}

/// A whole token sequence read as expressions, one after another, until no
/// token is left; or the first syntax error.
pub open spec fn program(ts: Seq<Token>) -> Result<Seq<Expression>, Error>
    decreases ts.len(),
{
    if ts.len() == 0 {
        Ok(seq![])
    } else {
        match expression_rule(ts) {
            Err(e) => Err(e),
            Ok((first, rest)) => if rest.len() < ts.len() {
                match program(rest) {
                    Ok(others) => Ok(seq![first] + others),
                    Err(e) => Err(e),
                }
            } else {
                Err(Error::Placeholder)
            },
        }
    }
}

/// The trees of a sequence of boxes.
pub open spec fn unboxed(v: Seq<Box<Expression>>) -> Seq<Expression> {
    v.map_values(|b: Box<Expression>| *b)
}

/// Puts `first` before the trees of a parse that did not fail.
pub open spec fn prepend(first: Seq<Expression>, r: Result<Seq<Expression>, Error>) -> Result<
    Seq<Expression>,
    Error,
> {
    match r {
        Ok(es) => Ok(first + es),
        Err(e) => Err(e),
    }
}

/// `r` is the outcome that `rule` describes, and `left` the tokens that the
/// rule leaves.
pub open spec fn delivers(r: Result<Box<Expression>, Error>, rule: Parsed, left: Seq<Token>) -> bool {
    match rule {
        Ok((e, rest)) => r matches Ok(b) && *b == e && left == rest,
        Err(x) => r matches Err(y) && y == x,
    }
}

proof fn lemma_prepend_twice(a: Seq<Expression>, b: Seq<Expression>, r: Result<Seq<Expression>, Error>)
    ensures
        prepend(a, prepend(b, r)) == prepend(a + b, r),
{
    if let Ok(es) = r {
        assert(a + (b + es) =~= (a + b) + es);
    }
}

fn is_equality_operator(t: &TokenType) -> (r: bool)
    ensures
        r == is_equality_op(*t),
{
    matches!(t, TokenType::EqualEqual | TokenType::BangEqual)
}

fn is_comparison_operator(t: &TokenType) -> (r: bool)
    ensures
        r == is_comparison_op(*t),
{
    matches!(t, TokenType::Greater | TokenType::GreaterEqual | TokenType::Less | TokenType::LessEqual)
}

fn is_term_operator(t: &TokenType) -> (r: bool)
    ensures
        r == is_term_op(*t),
{
    matches!(t, TokenType::Minus | TokenType::Plus)
}

fn is_factor_operator(t: &TokenType) -> (r: bool)
    ensures
        r == is_factor_op(*t),
{
    matches!(t, TokenType::Slash | TokenType::Star)
}

fn is_unary_operator(t: &TokenType) -> (r: bool)
    ensures
        r == is_unary_op(*t),
{
    matches!(t, TokenType::Minus | TokenType::Bang)
}

/// Reads expressions from the tokens until none is left.
#[verifier::loop_isolation(false)]
pub fn parse(mut tokens: VecDeque<Token>) -> (r: Result<Vec<Box<Expression>>, Error>)
    ensures
        match program(tokens@) {
            Ok(es) => r matches Ok(v) && unboxed(v@) == es,
            Err(e) => r matches Err(x) && x == e,
        },
{
    let ghost ts0 = tokens@;
    let mut expressions: Vec<Box<Expression>> = Vec::new();
    while tokens.len() > 0
        invariant
            program(ts0) == prepend(unboxed(expressions@), program(tokens@)),
        decreases tokens@.len(),
    {
        let ghost before = tokens@;
        match expression(&mut tokens) {
            Ok(e) => {
                let ghost acc = unboxed(expressions@);
                let ghost tree = *e;
                expressions.push(e);
                proof {
                    assert(unboxed(expressions@) =~= acc + seq![tree]);
                    lemma_prepend_twice(acc, seq![tree], program(tokens@));
                }
            },
            Err(e) => {
                return Err(e);
            },
        }
    }
    Ok(expressions)
}

fn expression(tokens: &mut VecDeque<Token>) -> (r: Result<Box<Expression>, Error>)
    ensures
        delivers(r, expression_rule(old(tokens)@), final(tokens)@),
        r is Ok ==> final(tokens)@.len() < old(tokens)@.len(),
    decreases old(tokens)@.len(), 10nat,
{
    equality(tokens)
}

fn equality(tokens: &mut VecDeque<Token>) -> (r: Result<Box<Expression>, Error>)
    ensures
        delivers(r, equality_rule(old(tokens)@), final(tokens)@),
        r is Ok ==> final(tokens)@.len() < old(tokens)@.len(),
    decreases old(tokens)@.len(), 9nat,
{
    let ghost ts0 = tokens@;
    let mut expr = match comparison(tokens) {
        Ok(e) => e,
        Err(e) => return Err(e),
    };
    while tokens.len() > 0 && is_equality_operator(&tokens[0].type_)
        invariant
            equality_rule(ts0) == equality_tail(*expr, tokens@),
            tokens@.len() < ts0.len(),
            ts0 == old(tokens)@,
        decreases tokens@.len(),
    {
        let operator = match tokens.pop_front() {
            Some(t) => t,
            None => return Err(Error::Placeholder),
        };
        let right = match comparison(tokens) {
            Ok(e) => e,
            Err(e) => return Err(e),
        };
        expr = Box::new(Expression::Binary { left: expr, operator, right });
    }
    Ok(expr)
}

fn comparison(tokens: &mut VecDeque<Token>) -> (r: Result<Box<Expression>, Error>)
    ensures
        delivers(r, comparison_rule(old(tokens)@), final(tokens)@),
        r is Ok ==> final(tokens)@.len() < old(tokens)@.len(),
    decreases old(tokens)@.len(), 7nat,
{
    let ghost ts0 = tokens@;
    let mut expr = match term(tokens) {
        Ok(e) => e,
        Err(e) => return Err(e),
    };
    while tokens.len() > 0 && is_comparison_operator(&tokens[0].type_)
        invariant
            comparison_rule(ts0) == comparison_tail(*expr, tokens@),
            tokens@.len() < ts0.len(),
            ts0 == old(tokens)@,
        decreases tokens@.len(),
    {
        let operator = match tokens.pop_front() {
            Some(t) => t,
            None => return Err(Error::Placeholder),
        };
        let right = match term(tokens) {
            Ok(e) => e,
            Err(e) => return Err(e),
        };
        expr = Box::new(Expression::Binary { left: expr, operator, right });
    }
    Ok(expr)
}

fn term(tokens: &mut VecDeque<Token>) -> (r: Result<Box<Expression>, Error>)
    ensures
        delivers(r, term_rule(old(tokens)@), final(tokens)@),
        r is Ok ==> final(tokens)@.len() < old(tokens)@.len(),
    decreases old(tokens)@.len(), 5nat,
{
    let ghost ts0 = tokens@;
    let mut expr = match factor(tokens) {
        Ok(e) => e,
        Err(e) => return Err(e),
    };
    while tokens.len() > 0 && is_term_operator(&tokens[0].type_)
        invariant
            term_rule(ts0) == term_tail(*expr, tokens@),
            tokens@.len() < ts0.len(),
            ts0 == old(tokens)@,
        decreases tokens@.len(),
    {
        let operator = match tokens.pop_front() {
            Some(t) => t,
            None => return Err(Error::Placeholder),
        };
        let right = match factor(tokens) {
            Ok(e) => e,
            Err(e) => return Err(e),
        };
        expr = Box::new(Expression::Binary { left: expr, operator, right });
    }
    Ok(expr)
}

fn factor(tokens: &mut VecDeque<Token>) -> (r: Result<Box<Expression>, Error>)
    ensures
        delivers(r, factor_rule(old(tokens)@), final(tokens)@),
        r is Ok ==> final(tokens)@.len() < old(tokens)@.len(),
    decreases old(tokens)@.len(), 3nat,
{
    let ghost ts0 = tokens@;
    let mut expr = match unary(tokens) {
        Ok(e) => e,
        Err(e) => return Err(e),
    };
    while tokens.len() > 0 && is_factor_operator(&tokens[0].type_)
        invariant
            factor_rule(ts0) == factor_tail(*expr, tokens@),
            tokens@.len() < ts0.len(),
            ts0 == old(tokens)@,
        decreases tokens@.len(),
    {
        let operator = match tokens.pop_front() {
            Some(t) => t,
            None => return Err(Error::Placeholder),
        };
        let right = match unary(tokens) {
            Ok(e) => e,
            Err(e) => return Err(e),
        };
        expr = Box::new(Expression::Binary { left: expr, operator, right });
    }
    Ok(expr)
}

fn unary(tokens: &mut VecDeque<Token>) -> (r: Result<Box<Expression>, Error>)
    ensures
        delivers(r, unary_rule(old(tokens)@), final(tokens)@),
        r is Ok ==> final(tokens)@.len() < old(tokens)@.len(),
    decreases old(tokens)@.len(), 1nat,
{
    if tokens.len() > 0 && is_unary_operator(&tokens[0].type_) {
        let operator = match tokens.pop_front() {
            Some(t) => t,
            None => return Err(Error::Placeholder),
        };
        let inner = match primary(tokens) {
            Ok(e) => e,
            Err(e) => return Err(e),
        };
        return Ok(Box::new(Expression::Unary { operator, expression: inner }));
    }
    primary(tokens)
}

fn primary(tokens: &mut VecDeque<Token>) -> (r: Result<Box<Expression>, Error>)
    ensures
        delivers(r, primary_rule(old(tokens)@), final(tokens)@),
        r is Ok ==> final(tokens)@.len() < old(tokens)@.len(),
    decreases old(tokens)@.len(), 0nat,
{
    let token = match tokens.pop_front() {
        Some(t) => t,
        None => return Err(Error::Placeholder),
    };
    match token.type_ {
        TokenType::LeftParen => {
            let expression = match expression(tokens) {
                Ok(e) => e,
                Err(e) => return Err(e),
            };
            match tokens.pop_front() {
                Some(closing) => if matches!(closing.type_, TokenType::RightParen) {
                    Ok(Box::new(Expression::Grouping { expression }))
                } else {
                    Err(Error::UnclosedParen)
                },
                None => Err(Error::UnclosedParen),
            }
        },
        TokenType::Number(n) => Ok(Box::new(Expression::Literal { value: Value::Float(n) })),
        TokenType::Str(s) => Ok(Box::new(Expression::Literal { value: Value::Str(s) })),
        TokenType::True => Ok(Box::new(Expression::Literal { value: Value::True })),
        TokenType::False => Ok(Box::new(Expression::Literal { value: Value::False })),
        _ => Err(Error::Placeholder),
    }
}

} // verus!
