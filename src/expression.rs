//! Expression trees, and a printer that renders them in prefix form.
use vstd::prelude::*;
use crate::scan::{kind_text, Token};
use crate::text::{decimal, push_decimal};

verus! {

/// The value of a literal. A floating-point literal is held as its decimal
/// text, exactly as it was written.
#[derive(Debug, PartialEq)]
pub enum Value {
    Str(String),
    Int(i64),
    Float(String),
    False,
    True,
}

/// An expression tree; each node owns its children.
#[derive(Debug, PartialEq)]
pub enum Expression {
    Literal { value: Value },
    Unary { operator: Token, expression: Box<Expression> },
    Binary { left: Box<Expression>, operator: Token, right: Box<Expression> },
    Grouping { expression: Box<Expression> },
}

/// How a literal's value is written.
pub open spec fn value_text(v: Value) -> Seq<char> {
    match v {
        Value::Str(s) => s@,
        Value::Int(i) => decimal(i as int),
        Value::Float(t) => t@,
        Value::False => "false"@,
        Value::True => "true"@,
    }
}

/// The parts, each after a space.
pub open spec fn spaced(parts: Seq<Seq<char>>) -> Seq<char>
    decreases parts.len(),
{
    if parts.len() == 0 {
        seq![]
    } else {
        spaced(parts.drop_last()) + seq![' '] + parts.last()
    }
}

/// `(name part part ...)`.
pub open spec fn parenthesized(name: Seq<char>, parts: Seq<Seq<char>>) -> Seq<char> {
    seq!['('] + name + spaced(parts) + seq![')']
}

/// The prefix rendering of an expression: a literal as its value; an
/// operator node as the operator followed by its operands, in parentheses;
/// a group as `group` followed by its contents, in parentheses.
pub open spec fn printed(e: Expression) -> Seq<char>
    decreases e,
{
    match e {
        Expression::Literal { value } => value_text(value),
        Expression::Unary { operator, expression } => parenthesized(
            kind_text(operator.type_),
            seq![printed(*expression)],
        ),
        Expression::Binary { left, operator, right } => parenthesized(
            kind_text(operator.type_),
            seq![printed(*left), printed(*right)],
        ),
        Expression::Grouping { expression } => parenthesized("group"@, seq![printed(*expression)]),
    }
}

impl Value {
    /// The value as it is written.
    pub fn text(&self) -> (r: String)
        ensures
            r@ == value_text(*self),
    {
        match self {
            Value::Str(s) => s.clone(),
            Value::Int(i) => {
                let mut r = String::new();
                push_decimal(&mut r, *i);
                assert(r@ =~= decimal(*i as int));
                r
            },
            Value::Float(t) => t.clone(),
            Value::False => String::from_str("false"),
            Value::True => String::from_str("true"),
        }
    }
}

/// Renders `expression` in prefix form, as `printed` says.
pub fn print(expression: &Expression) -> (r: String)
    ensures
        r@ == printed(*expression),
    decreases expression,
{
    match expression {
        Expression::Literal { value } => value.text(),
        Expression::Unary { operator, expression } => {
            let parts = vec![print(expression)];
            assert(parts@.map_values(|p: String| p@) =~= seq![printed(**expression)]);
            parenthesize(operator.text().as_str(), &parts)
        },
        Expression::Binary { left, operator, right } => {
            let parts = vec![print(left), print(right)];
            assert(parts@.map_values(|p: String| p@) =~= seq![printed(**left), printed(**right)]);
            parenthesize(operator.text().as_str(), &parts)
        },
        Expression::Grouping { expression } => {
            let parts = vec![print(expression)];
            assert(parts@.map_values(|p: String| p@) =~= seq![printed(**expression)]);
            parenthesize("group", &parts)
        },
    }
}

/// Writes `name` and the parts, each after a space, in parentheses.
fn parenthesize(name: &str, parts: &Vec<String>) -> (r: String)
    ensures
        r@ == parenthesized(name@, parts@.map_values(|p: String| p@)),
{
    let ghost views = parts@.map_values(|p: String| p@);
    let mut string = String::new();
    string.push('(');
    string.append(name);
    let mut i: usize = 0;
    while i < parts.len()
        invariant
            i <= parts@.len(),
            views == parts@.map_values(|p: String| p@),
            string@ == seq!['('] + name@ + spaced(views.take(i as int)),
        decreases parts@.len() - i,
    {
        string.push(' ');
        string.append(parts[i].as_str());
        assert(views.take(i + 1).drop_last() =~= views.take(i as int));
        i += 1;
    }
    string.push(')');
    assert(views.take(i as int) =~= views);
    string
}

} // verus!
