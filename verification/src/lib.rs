//! Arithmetic equations such as `1 + 2 * 3 = 7`: a verified parser for
//! their text, the expression tree it builds, and the text of a tree.
//!
//! [`grammar`] says what each rule of the grammar reads, as mathematics, and
//! [`parser`] holds the functions that do the reading, each proved against
//! its rule. [`layout`] proves that every admitted way of writing an
//! expression is read as the tree it was written for, [`written`] that
//! nothing else is read, and [`round_trip`] that the text of a tree which
//! needs no parentheses is read back as that tree.
//!
//! Numerals are kept as they were written. Turning them into floating-point
//! numbers, and evaluating an expression, is left to the caller.

pub mod failure;
pub mod grammar;
pub mod layout;
pub mod parser;
pub mod round_trip;
pub mod syntax;
pub mod text;
pub mod tokens;
pub mod written;

pub use failure::{FailureKind, InvalidEquation, ParseFailure};
pub use parser::parse_equation;
pub use syntax::{Equation, Expr, Numeral, Operator};
