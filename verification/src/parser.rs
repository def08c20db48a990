//! The parser: one function for each rule of the grammar, each proved to
//! compute what the rule's definition in [`crate::grammar`] says.

use vstd::prelude::*;
use vstd::string::*;
use crate::failure::{diagnostic, FailureKind, FailureView, InvalidEquation, ParseFailure};
use crate::grammar::{
    chain, combine, equation, expression, factor, lemma_chain_consumes, lemma_primary_consumes,
    number, operations, parenthesized, primary, right_hand_side, term, Level, Parsed,
};
use crate::syntax::{Equation, Expr, ExprView, Numeral, Operator};
use crate::tokens::{
    digit_run, lemma_blank_run, lemma_digit_run, lemma_literal_alone, lemma_skip_blank_twice,
    literal_len, skip_blanks, split_ascii, take_char, take_digits, CARET, CLOSE, EQUALS, MINUS,
    OPEN, PLUS, POINT, SLASH, STAR,
};

verus! {

/// Whether the outcome `r` of a parser is what the grammar `p` says: on
/// success the same value and the same bytes left over, on failure the same
/// failure.
pub open spec fn agrees<'a, T: View>(
    r: Result<(&'a str, T), ParseFailure<'a>>,
    p: Parsed<T::V>,
) -> bool {
    match (r, p) {
        (Ok((rest, value)), Ok((left, v))) => left == rest.spec_bytes() && v == value@,
        (Err(failure), Err(f)) => f == failure@,
        _ => false,
    }
}

/// Splits off the unsigned numeral at the front of the input, where a digit
/// stands first.
fn take_literal<'a>(input: &'a str) -> (r: Option<(&'a str, &'a str)>)
    ensures
        match r {
            Some((literal, rest)) => {
                let n = literal_len(input.spec_bytes());
                &&& n > 0
                &&& literal.spec_bytes() == input.spec_bytes().take(n as int)
                &&& rest.spec_bytes() == input.spec_bytes().skip(n as int)
            },
            None => literal_len(input.spec_bytes()) == 0,
        },
{
    let ghost s = input.spec_bytes();
    let ghost whole = digit_run(s) as int;
    let ghost after = s.skip(whole + 1);
    proof {
        lemma_digit_run(s);
        lemma_digit_run(after);
    }
    match take_digits(input) {
        None => None,
        Some((_, after_whole)) => {
            let rest = match take_char(after_whole, POINT) {
                Some(after_point) => {
                    assert(after_point.spec_bytes() == after);
                    match take_digits(after_point) {
                        Some((_, after_fraction)) => after_fraction,
                        None => after_whole,
                    }
                },
                None => after_whole,
            };
            let n = input.as_bytes().len() - rest.as_bytes().len();
            proof {
                assert forall|i: int| 0 <= i < n implies #[trigger] s[i] < 0x80 by {
                    if i > whole {
                        assert(s[i] == after[i - whole - 1]);
                    }
                }
            }
            Some(split_ascii(input, n))
        },
    }
}

/// Parses a signed numeral with blanks around it.
pub fn parse_number<'a>(input: &'a str) -> (r: Result<(&'a str, Numeral), ParseFailure<'a>>)
    ensures
        agrees(r, number(input.spec_bytes())),
{
    let start = skip_blanks(input);
    let (negative, unsigned) = match take_char(start, MINUS) {
        Some(rest) => (true, rest),
        None => (false, start),
    };
    proof {
        lemma_literal_alone(unsigned.spec_bytes());
    }
    match take_literal(unsigned) {
        Some((literal, rest)) => Ok((skip_blanks(rest), Numeral::new(negative, literal))),
        None => Err(ParseFailure { input: unsigned, kind: FailureKind::ExpectedDigit }),
    }
}

/// Parses the right-hand side: `=`, then a number.
pub fn rhs<'a>(input: &'a str) -> (r: Result<(&'a str, Numeral), ParseFailure<'a>>)
    ensures
        agrees(r, right_hand_side(input.spec_bytes())),
{
    match take_char(input, EQUALS) {
        Some(rest) => {
            proof {
                lemma_skip_blank_twice(rest.spec_bytes());
            }
            parse_number(skip_blanks(rest))
        },
        None => Err(ParseFailure { input, kind: FailureKind::ExpectedChar }),
    }
}

/// The operator that a character writes, if any.
pub open spec fn operator_of(c: char) -> Option<Operator> {
    if c == '+' {
        Some(Operator::Add)
    } else if c == '-' {
        Some(Operator::Subtract)
    } else if c == '*' {
        Some(Operator::Multiply)
    } else if c == '/' {
        Some(Operator::Divide)
    } else if c == '^' {
        Some(Operator::Exponent)
    } else {
        None
    }
}

/// What a list of operator characters with their operands stands for.
pub open spec fn operations_view(list: Seq<(char, Expr)>) -> Seq<(Operator, ExprView)> {
    Seq::new(list.len(), |i: int| (operator_of(list[i].0)->0, list[i].1@))
}

/// Puts an operator, given by its character, between two expressions.
pub fn parse_op(operation: (char, Expr), expr1: Expr) -> (r: Expr)
    requires
        operator_of(operation.0) is Some,
    ensures
        r@ == ExprView::BinaryOp(
            operator_of(operation.0)->0,
            Box::new(expr1@),
            Box::new(operation.1@),
        ),
{
    let (op, expr2) = operation;
    let operator = match op {
        '+' => Operator::Add,
        '-' => Operator::Subtract,
        '*' => Operator::Multiply,
        '/' => Operator::Divide,
        _ => Operator::Exponent,
    };
    Expr::BinaryOp(operator, Box::new(expr1), Box::new(expr2))
}

/// Builds one tree from a first expression and the operations that follow
/// it, grouping to the left.
pub fn combine_exprs(expr: Expr, exprs: Vec<(char, Expr)>) -> (r: Expr)
    requires
        forall|i: int| 0 <= i < exprs@.len() ==> operator_of(#[trigger] exprs@[i].0) is Some,
    ensures
        r@ == combine(expr@, operations_view(exprs@)),
{
    let ghost all = operations_view(exprs@);
    let ghost list = exprs@;
    let mut acc = expr;
    assert(all.skip(0) == all);
    for val in it: exprs.into_iter()
        invariant
            it.seq() == list,
            all == operations_view(list),
            forall|i: int| 0 <= i < list.len() ==> operator_of(#[trigger] list[i].0) is Some,
            combine(expr@, all) == combine(acc@, all.skip(it.index() as int)),
    {
        proof {
            let left = all.skip(it.index() as int);
            assert(left.skip(1) == all.skip(it.index() + 1));
        }
        acc = parse_op(val, acc);
    }
    acc
}

/// Moves past an operator of the given level where the input begins with
/// one, and says which it was.
fn take_operator<'a>(input: &'a str, level: Level) -> (r: Option<(&'a str, char)>)
    ensures
        match r {
            Some((rest, c)) => {
                &&& input.spec_bytes().len() > 0
                &&& operator_of(c) is Some
                &&& level.operator(input.spec_bytes()[0]) == operator_of(c)
                &&& rest.spec_bytes() == input.spec_bytes().skip(1)
            },
            None => !(input.spec_bytes().len() > 0 && level.operator(input.spec_bytes()[0])
                is Some),
        },
{
    match level {
        Level::Power => match take_char(input, CARET) {
            Some(rest) => Some((rest, '^')),
            None => None,
        },
        Level::Product => match take_char(input, SLASH) {
            Some(rest) => Some((rest, '/')),
            None => match take_char(input, STAR) {
                Some(rest) => Some((rest, '*')),
                None => None,
            },
        },
        Level::Sum => match take_char(input, PLUS) {
            Some(rest) => Some((rest, '+')),
            None => match take_char(input, MINUS) {
                Some(rest) => Some((rest, '-')),
                None => None,
            },
        },
    }
}

/// Parses the operators of the given level that follow one another, each
/// with its operand, and stops before the first operator that no operand
/// follows.
fn parse_operations<'a>(input: &'a str, level: Level) -> (r: (&'a str, Vec<(char, Expr)>))
    ensures
        operations(input.spec_bytes(), level) == (r.0.spec_bytes(), operations_view(r.1@)),
        forall|i: int| 0 <= i < r.1@.len() ==> operator_of(#[trigger] r.1@[i].0) is Some,
    decreases input.spec_bytes().len(), level.rank(), 0nat,
{
    let mut rest = input;
    let mut found: Vec<(char, Expr)> = Vec::new();
    loop
        invariant
            rest.spec_bytes().len() <= input.spec_bytes().len(),
            forall|i: int| 0 <= i < found@.len() ==> operator_of(#[trigger] found@[i].0) is Some,
            operations(input.spec_bytes(), level) == (
                operations(rest.spec_bytes(), level).0,
                operations_view(found@) + operations(rest.spec_bytes(), level).1,
            ),
        ensures
            operations(rest.spec_bytes(), level) == (
                rest.spec_bytes(),
                Seq::<(Operator, ExprView)>::empty(),
            ),
        decreases rest.spec_bytes().len(),
    {
        match take_operator(rest, level) {
            None => {
                break ;
            },
            Some((after, op)) => {
                let operand = match level {
                    Level::Power => parse_factor(after),
                    Level::Product => parse_factor(after),
                    Level::Sum => parse_term(after),
                };
                match operand {
                    Err(_) => {
                        break ;
                    },
                    Ok((next, e)) => {
                        proof {
                            lemma_chain_consumes(after.spec_bytes(), Level::Product);
                            assert(chain(after.spec_bytes(), level.operand()) == Ok::<
                                (Seq<u8>, ExprView),
                                FailureView,
                            >((next.spec_bytes(), e@)));
                        }
                        found.push((op, e));
                        rest = next;
                    },
                }
            },
        }
    }
    proof {
        assert(operations_view(found@) + Seq::<(Operator, ExprView)>::empty()
            == operations_view(found@));
    }
    (rest, found)
}

/// Parses an expression in parentheses, with blanks around it.
pub fn parse_parens<'a>(input: &'a str) -> (r: Result<(&'a str, Expr), ParseFailure<'a>>)
    ensures
        agrees(r, parenthesized(input.spec_bytes())),
    decreases input.spec_bytes().len(), 0nat, 1nat,
{
    let inner = skip_blanks(input);
    proof {
        lemma_blank_run(input.spec_bytes());
    }
    match take_char(inner, OPEN) {
        None => Err(ParseFailure { input: inner, kind: FailureKind::ExpectedChar }),
        Some(after_open) => match parse_expression(after_open) {
            Err(e) => Err(e),
            Ok((rest, e)) => match take_char(rest, CLOSE) {
                None => Err(ParseFailure { input: rest, kind: FailureKind::ExpectedChar }),
                Some(after_close) => Ok((skip_blanks(after_close), e)),
            },
        },
    }
}

/// Parses a parenthesized expression or, failing that, a number.
pub fn parse_operation<'a>(input: &'a str) -> (r: Result<(&'a str, Expr), ParseFailure<'a>>)
    ensures
        agrees(r, primary(input.spec_bytes())),
    decreases input.spec_bytes().len(), 0nat, 2nat,
{
    match parse_parens(input) {
        Ok(found) => Ok(found),
        Err(_) => match parse_number(input) {
            Ok((rest, n)) => Ok((rest, Expr::Number(n))),
            Err(e) => Err(e),
        },
    }
}

/// Parses a primary and the powers that follow it: `2^3^2` is `2^(3^2)`.
pub fn parse_factor<'a>(input: &'a str) -> (r: Result<(&'a str, Expr), ParseFailure<'a>>)
    ensures
        agrees(r, factor(input.spec_bytes())),
    decreases input.spec_bytes().len(), 1nat, 1nat,
{
    proof {
        lemma_primary_consumes(input.spec_bytes());
    }
    match parse_operation(input) {
        Err(e) => Err(e),
        Ok((input, num)) => {
            let (input, exprs) = parse_operations(input, Level::Power);
            Ok((input, combine_exprs(num, exprs)))
        },
    }
}

/// Parses factors joined by `*` and `/`: `8/2/2` is `(8/2)/2`.
pub fn parse_term<'a>(input: &'a str) -> (r: Result<(&'a str, Expr), ParseFailure<'a>>)
    ensures
        agrees(r, term(input.spec_bytes())),
    decreases input.spec_bytes().len(), 2nat, 1nat,
{
    proof {
        lemma_chain_consumes(input.spec_bytes(), Level::Power);
    }
    match parse_factor(input) {
        Err(e) => Err(e),
        Ok((input, num)) => {
            let (input, exprs) = parse_operations(input, Level::Product);
            Ok((input, combine_exprs(num, exprs)))
        },
    }
}

/// Parses terms joined by `+` and `-`, grouping to the left.
pub fn parse_expression<'a>(input: &'a str) -> (r: Result<(&'a str, Expr), ParseFailure<'a>>)
    ensures
        agrees(r, expression(input.spec_bytes())),
    decreases input.spec_bytes().len(), 3nat, 1nat,
{
    proof {
        lemma_chain_consumes(input.spec_bytes(), Level::Product);
    }
    match parse_term(input) {
        Err(e) => Err(e),
        Ok((input, num)) => {
            let (input, exprs) = parse_operations(input, Level::Sum);
            Ok((input, combine_exprs(num, exprs)))
        },
    }
}

/// Parses an equation: an expression, `=`, and the value it is claimed to
/// have. What follows the value is handed back unread.
pub fn parse_equation<'a>(input: &'a str) -> (r: Result<(&'a str, Equation), ParseFailure<'a>>)
    ensures
        agrees(r, equation(input.spec_bytes())),
{
    match parse_expression(input) {
        Err(e) => Err(e),
        Ok((rest, expression)) => match rhs(rest) {
            Err(e) => Err(e),
            Ok((rest, expected)) => Ok((rest, Equation::new(expression, expected))),
        },
    }
}

impl core::str::FromStr for Equation {
    type Err = InvalidEquation;

    /// Reads an equation from the front of a text. What follows the equation
    /// is ignored.
    fn from_str(s: &str) -> (r: Result<Equation, InvalidEquation>)
        ensures
            match r {
                Ok(eq) => equation(s.spec_bytes()) matches Ok((_, v)) && v == eq@,
                Err(e) => equation(s.spec_bytes()) matches Err(f) && e@ == diagnostic(f),
            },
    {
        match parse_equation(s) {
            Ok((_, p)) => Ok(p),
            Err(e) => Err(InvalidEquation::new(&e)),
        }
    }
}

} // verus!
