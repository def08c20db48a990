// The grammar once more, put together from nom's combinators, and the parser
// held against it: both must read the same from every text.

use equation::failure::InvalidEquation;
use equation::parser::parse_equation;
use equation::syntax::{Expr, Operator};
use nom::branch::alt;
use nom::character::complete::{char, digit1, space0};
use nom::combinator::{opt, recognize};
use nom::multi::many0;
use nom::sequence::{delimited, preceded, terminated, tuple};
use nom::IResult;

#[derive(Debug, PartialEq)]
enum Tree {
    Num(bool, String),
    Op(char, Box<Tree>, Box<Tree>),
}

fn number(input: &str) -> IResult<&str, Tree> {
    let fraction = recognize(tuple((digit1, char('.'), digit1)));
    let mut signed = delimited(space0, tuple((opt(char('-')), alt((fraction, digit1)))), space0);
    let (rest, (sign, digits)) = signed(input)?;
    Ok((rest, Tree::Num(sign.is_some(), digits.to_string())))
}

fn parens(input: &str) -> IResult<&str, Tree> {
    delimited(space0, delimited(char('('), expression, char(')')), space0)(input)
}

fn primary(input: &str) -> IResult<&str, Tree> {
    alt((parens, number))(input)
}

fn fold(first: Tree, rest: Vec<(char, Tree)>) -> Tree {
    rest.into_iter().fold(first, |acc, (op, e)| Tree::Op(op, Box::new(acc), Box::new(e)))
}

fn factor(input: &str) -> IResult<&str, Tree> {
    let (input, first) = primary(input)?;
    let (input, rest) = many0(tuple((char('^'), factor)))(input)?;
    Ok((input, fold(first, rest)))
}

fn term(input: &str) -> IResult<&str, Tree> {
    let (input, first) = factor(input)?;
    let (input, rest) = many0(tuple((alt((char('/'), char('*'))), factor)))(input)?;
    Ok((input, fold(first, rest)))
}

fn expression(input: &str) -> IResult<&str, Tree> {
    let (input, first) = term(input)?;
    let (input, rest) = many0(tuple((alt((char('+'), char('-'))), term)))(input)?;
    Ok((input, fold(first, rest)))
}

fn whole(input: &str) -> IResult<&str, (Tree, Tree)> {
    tuple((expression, preceded(terminated(char('='), space0), number)))(input)
}

fn tree_of(expr: &Expr) -> Tree {
    match expr {
        Expr::Number(n) => Tree::Num(n.is_negative(), n.literal().to_string()),
        Expr::BinaryOp(operator, left, right) => {
            let op = match operator {
                Operator::Add => '+',
                Operator::Subtract => '-',
                Operator::Multiply => '*',
                Operator::Divide => '/',
                Operator::Exponent => '^',
            };
            Tree::Op(op, Box::new(tree_of(left)), Box::new(tree_of(right)))
        }
    }
}

fn compare(input: &str) {
    match (whole(input), parse_equation(input)) {
        (Ok((rest, (left, right))), Ok((ours, equation))) => {
            assert_eq!(rest, ours, "on {:?}", input);
            assert_eq!(left, tree_of(equation.expression()), "on {:?}", input);
            let expected = equation.expected();
            assert_eq!(
                right,
                Tree::Num(expected.is_negative(), expected.literal().to_string()),
                "on {:?}",
                input
            );
        }
        (Err(theirs), Err(ours)) => {
            assert_eq!(theirs.to_string(), InvalidEquation::new(&ours).message(), "on {:?}", input);
        }
        (theirs, ours) => panic!("on {:?}: {:?} against {:?}", input, theirs, ours),
    }
}

fn every_text(alphabet: &[char], length: usize, text: &mut String, count: &mut usize) {
    compare(text);
    *count += 1;
    if length > 0 {
        for c in alphabet {
            text.push(*c);
            every_text(alphabet, length - 1, text, count);
            text.pop();
        }
    }
}

#[test]
fn agrees_with_the_combinators_on_every_short_text() {
    let alphabet = ['1', '.', ' ', '-', '+', '*', '^', '(', ')', '='];
    let mut count = 0;
    every_text(&alphabet, 5, &mut String::new(), &mut count);
    assert_eq!(count, 111_111);
}

#[test]
fn agrees_with_the_combinators_on_longer_texts() {
    let alphabet = ['7', '.', ' ', '\t', '-', '/', '(', ')', '=', 'x', '\u{e9}'];
    let mut state: u64 = 0x2545_f491_4f6c_dd1d;
    for _ in 0..100_000 {
        let mut text = String::new();
        state ^= state << 13;
        state ^= state >> 7;
        state ^= state << 17;
        let length = 4 + (state % 20) as usize;
        for _ in 0..length {
            state ^= state << 13;
            state ^= state >> 7;
            state ^= state << 17;
            text.push(alphabet[(state % alphabet.len() as u64) as usize]);
        }
        compare(&text);
    }
}
