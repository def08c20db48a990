//! The grammar, as mathematics: for each rule, the function from the bytes
//! of an input to what parsing it gives, a value and the bytes left over or
//! a failure.
//!
//! ```text
//! equation   := expression "=" number
//! expression := term (("+" | "-") term)*
//! term       := factor (("*" | "/") factor)*
//! factor     := primary ("^" factor)*
//! primary    := "(" expression ")" | number
//! number     := "-"? (digits "." digits | digits)
//! ```
//!
//! Blanks may stand before and after a number and a parenthesis. A rule
//! takes as much as it can: a repetition stops before the first operator
//! that no operand follows, and leaves that operator unread.

use vstd::prelude::*;
use crate::failure::{FailureKind, FailureView};
use crate::syntax::{EquationView, ExprView, NumeralView, Operator};
use crate::tokens::{
    is_suffix, lemma_blank_run, lemma_literal_alone, lemma_suffix_of_suffix, lemma_suffix_whole,
    literal_len, skip_blank, starts_with, CARET, CLOSE, EQUALS, MINUS, OPEN, PLUS, SLASH, STAR,
};

verus! {

/// What parsing gives: the bytes left over and the value, or a failure.
pub type Parsed<T> = Result<(Seq<u8>, T), FailureView>;

/// The three levels of binding, loosest last.
#[derive(Clone, Copy, Debug, PartialEq, Eq, Structural)]
pub enum Level {
    Power,
    Product,
    Sum,
}

impl Level {
    /// The levels in order of binding strength.
    pub open spec fn rank(self) -> nat {
        match self {
            Level::Power => 1,
            Level::Product => 2,
            Level::Sum => 3,
        }
    }

    /// The level at which the operand after an operator of this level is
    /// read. After `^` it is the level of powers again, which is what makes
    /// `^` group to the right.
    pub open spec fn operand(self) -> Level {
        match self {
            Level::Power => Level::Power,
            Level::Product => Level::Power,
            Level::Sum => Level::Product,
        }
    }

    /// The operator of this level that the byte `b` writes, if any.
    pub open spec fn operator(self, b: u8) -> Option<Operator> {
        match self {
            Level::Power => if b == CARET {
                Some(Operator::Exponent)
            } else {
                None
            },
            Level::Product => if b == STAR {
                Some(Operator::Multiply)
            } else if b == SLASH {
                Some(Operator::Divide)
            } else {
                None
            },
            Level::Sum => if b == PLUS {
                Some(Operator::Add)
            } else if b == MINUS {
                Some(Operator::Subtract)
            } else {
                None
            },
        }
    }
}

impl Operator {
    /// The level at which the operator binds.
    pub open spec fn level(self) -> Level {
        match self {
            Operator::Exponent => Level::Power,
            Operator::Multiply => Level::Product,
            Operator::Divide => Level::Product,
            Operator::Add => Level::Sum,
            Operator::Subtract => Level::Sum,
        }
    }

    /// The byte that writes the operator.
    pub open spec fn byte(self) -> u8 {
        match self {
            Operator::Exponent => CARET,
            Operator::Multiply => STAR,
            Operator::Divide => SLASH,
            Operator::Add => PLUS,
            Operator::Subtract => MINUS,
        }
    }
}

/// A signed numeral with blanks around it. It fails where no digit follows
/// the blanks and the sign.
pub open spec fn number(s: Seq<u8>) -> Parsed<NumeralView> {
    let unsigned = skip_sign(skip_blank(s));
    let n = literal_len(unsigned);
    if n == 0 {
        Err(FailureView { input: unsigned, kind: FailureKind::ExpectedDigit })
    } else {
        Ok(
            (
                skip_blank(unsigned.skip(n as int)),
                NumeralView {
                    negative: starts_with(skip_blank(s), MINUS),
                    literal: unsigned.take(n as int),
                },
            ),
        )
    }
}

/// `s` without the minus sign at its front, if there is one.
pub open spec fn skip_sign(s: Seq<u8>) -> Seq<u8> {
    if starts_with(s, MINUS) {
        s.skip(1)
    } else {
        s
    }
}

/// The right-hand side: `=`, then a number.
pub open spec fn right_hand_side(s: Seq<u8>) -> Parsed<NumeralView> {
    if starts_with(s, EQUALS) {
        number(s.skip(1))
    } else {
        Err(FailureView { input: s, kind: FailureKind::ExpectedChar })
    }
}

/// An expression in parentheses, with blanks around it.
pub open spec fn parenthesized(s: Seq<u8>) -> Parsed<ExprView>
    decreases s.len(), 0nat, 1nat,
{
    let inner = skip_blank(s);
    if starts_with(inner, OPEN) {
        proof {
            lemma_blank_run(s);
        }
        match chain(inner.skip(1), Level::Sum) {
            Ok((rest, e)) => if starts_with(rest, CLOSE) {
                Ok((skip_blank(rest.skip(1)), e))
            } else {
                Err(FailureView { input: rest, kind: FailureKind::ExpectedChar })
            },
            Err(e) => Err(e),
        }
    } else {
        Err(FailureView { input: inner, kind: FailureKind::ExpectedChar })
    }
}

/// A parenthesized expression or, failing that, a number. Where both fail,
/// the failure is that of the number.
pub open spec fn primary(s: Seq<u8>) -> Parsed<ExprView>
    decreases s.len(), 0nat, 2nat,
{
    match parenthesized(s) {
        Ok(found) => Ok(found),
        Err(_) => match number(s) {
            Ok((rest, n)) => Ok((rest, ExprView::Number(n))),
            Err(e) => Err(e),
        },
    }
}

/// The operand that opens a chain of the given level.
pub open spec fn first_operand(s: Seq<u8>, level: Level) -> Parsed<ExprView>
    decreases s.len(), level.rank(), 0nat,
{
    match level {
        Level::Power => primary(s),
        Level::Product => chain(s, Level::Power),
        Level::Sum => chain(s, Level::Product),
    }
}

/// The operators of the given level that follow one another in `s`, each with
/// its operand: as many as there are. The comparison of lengths always holds
/// (see [`lemma_definitions_unfold`]); it is what shows that the definition
/// comes to an end.
pub open spec fn operations(s: Seq<u8>, level: Level) -> (Seq<u8>, Seq<(Operator, ExprView)>)
    decreases s.len(), level.rank(), 0nat,
{
    if s.len() > 0 && level.operator(s[0]) is Some {
        match chain(s.skip(1), level.operand()) {
            Ok((rest, operand)) => if rest.len() < s.len() {
                let (end, more) = operations(rest, level);
                (end, seq![(level.operator(s[0])->0, operand)] + more)
            } else {
                (s, seq![])
            },
            Err(_) => (s, seq![]),
        }
    } else {
        (s, seq![])
    }
}

/// The tree of a first operand and the operations that follow it, grouped
/// to the left.
pub open spec fn combine(first: ExprView, operations: Seq<(Operator, ExprView)>) -> ExprView
    decreases operations.len(),
{
    if operations.len() == 0 {
        first
    } else {
        combine(
            ExprView::BinaryOp(operations[0].0, Box::new(first), Box::new(operations[0].1)),
            operations.skip(1),
        )
    }
}

/// A chain of the given level: a first operand, then operators of that level
/// with their operands. The comparison of lengths always holds (see
/// [`lemma_definitions_unfold`]); it is what shows that the definition comes
/// to an end.
pub open spec fn chain(s: Seq<u8>, level: Level) -> Parsed<ExprView>
    decreases s.len(), level.rank(), 1nat,
{
    match first_operand(s, level) {
        Ok((rest, first)) => if rest.len() <= s.len() {
            let (end, more) = operations(rest, level);
            Ok((end, combine(first, more)))
        } else {
            Ok((rest, first))
        },
        Err(e) => Err(e),
    }
}

/// `primary ("^" factor)*`.
pub open spec fn factor(s: Seq<u8>) -> Parsed<ExprView> {
    chain(s, Level::Power)
}

/// `factor (("*" | "/") factor)*`.
pub open spec fn term(s: Seq<u8>) -> Parsed<ExprView> {
    chain(s, Level::Product)
}

/// `term (("+" | "-") term)*`.
pub open spec fn expression(s: Seq<u8>) -> Parsed<ExprView> {
    chain(s, Level::Sum)
}

/// `expression "=" number`.
pub open spec fn equation(s: Seq<u8>) -> Parsed<EquationView> {
    match expression(s) {
        Ok((rest, e)) => match right_hand_side(rest) {
            Ok((end, n)) => Ok((end, EquationView { expression: e, expected: n })),
            Err(e) => Err(e),
        },
        Err(e) => Err(e),
    }
}

/// A number that parses is a numeral, and parsing it uses up input: what is
/// left over is a shorter end of the input.
pub proof fn lemma_number_consumes(s: Seq<u8>)
    ensures
        number(s) matches Ok((rest, n)) ==> rest.len() < s.len() && is_suffix(rest, s) && n.wf(),
{
    let signed = skip_blank(s);
    let unsigned = skip_sign(signed);
    let n = literal_len(unsigned) as int;
    lemma_blank_run(s);
    lemma_literal_alone(unsigned);
    lemma_blank_run(unsigned.skip(n));
    if n > 0 {
        if !starts_with(signed, MINUS) {
            lemma_suffix_whole(signed);
        }
        lemma_suffix_of_suffix(unsigned, signed, s);
        lemma_suffix_of_suffix(skip_blank(unsigned.skip(n)), unsigned.skip(n), unsigned);
        lemma_suffix_of_suffix(skip_blank(unsigned.skip(n)), unsigned, s);
    }
}

/// A parenthesized expression that parses is made of numerals, and parsing
/// it uses up input.
pub proof fn lemma_parenthesized_consumes(s: Seq<u8>)
    ensures
        parenthesized(s) matches Ok((rest, e)) ==> rest.len() < s.len() && is_suffix(rest, s)
            && e.wf(),
    decreases s.len(), 0nat, 1nat,
{
    let inner = skip_blank(s);
    lemma_blank_run(s);
    if starts_with(inner, OPEN) {
        lemma_chain_consumes(inner.skip(1), Level::Sum);
        if let Ok((rest, _)) = chain(inner.skip(1), Level::Sum) {
            if starts_with(rest, CLOSE) {
                let closed = rest.skip(1);
                lemma_blank_run(closed);
                lemma_suffix_of_suffix(inner.skip(1), inner, s);
                lemma_suffix_of_suffix(rest, inner.skip(1), s);
                lemma_suffix_of_suffix(closed, rest, s);
                lemma_suffix_of_suffix(skip_blank(closed), closed, s);
            }
        }
    }
}

/// A primary that parses is made of numerals, and parsing it uses up input.
pub proof fn lemma_primary_consumes(s: Seq<u8>)
    ensures
        primary(s) matches Ok((rest, e)) ==> rest.len() < s.len() && is_suffix(rest, s) && e.wf(),
    decreases s.len(), 0nat, 2nat,
{
    lemma_parenthesized_consumes(s);
    lemma_number_consumes(s);
}

/// The operations read at the front of the input are made of numerals, each
/// under an operator of the level, and what is left over is an end of the
/// input.
pub proof fn lemma_operations_consume(s: Seq<u8>, level: Level)
    ensures
        is_suffix(operations(s, level).0, s),
        forall|i: int|
            0 <= i < operations(s, level).1.len() ==> {
                &&& (#[trigger] operations(s, level).1[i]).1.wf()
                &&& operations(s, level).1[i].0.level() == level
            },
    decreases s.len(), level.rank(), 0nat,
{
    lemma_suffix_whole(s);
    if s.len() > 0 && level.operator(s[0]) is Some {
        lemma_chain_consumes(s.skip(1), Level::Power);
        lemma_chain_consumes(s.skip(1), Level::Product);
        if let Ok((rest, operand)) = chain(s.skip(1), level.operand()) {
            if rest.len() < s.len() {
                lemma_operations_consume(rest, level);
                lemma_suffix_of_suffix(rest, s.skip(1), s);
                lemma_suffix_of_suffix(operations(rest, level).0, rest, s);
            }
        }
    }
}

/// Grouping operations made of numerals under a first operand made of
/// numerals gives a tree made of numerals.
pub proof fn lemma_combine_wf(first: ExprView, operations: Seq<(Operator, ExprView)>)
    requires
        first.wf(),
        forall|i: int| 0 <= i < operations.len() ==> (#[trigger] operations[i]).1.wf(),
    ensures
        combine(first, operations).wf(),
    decreases operations.len(),
{
    if operations.len() > 0 {
        let grown = ExprView::BinaryOp(
            operations[0].0,
            Box::new(first),
            Box::new(operations[0].1),
        );
        let later = operations.skip(1);
        lemma_combine_wf(grown, later);
    }
}

/// A chain that parses is made of numerals, and parsing it uses up input:
/// what is left over is a shorter end of the input.
pub proof fn lemma_chain_consumes(s: Seq<u8>, level: Level)
    ensures
        chain(s, level) matches Ok((rest, e)) ==> rest.len() < s.len() && is_suffix(rest, s)
            && e.wf(),
    decreases s.len(), level.rank(), 1nat,
{
    match level {
        Level::Power => lemma_primary_consumes(s),
        Level::Product => lemma_chain_consumes(s, Level::Power),
        Level::Sum => lemma_chain_consumes(s, Level::Product),
    }
    if let Ok((rest, first)) = first_operand(s, level) {
        lemma_operations_consume(rest, level);
        lemma_combine_wf(first, operations(rest, level).1);
        lemma_suffix_of_suffix(operations(rest, level).0, rest, s);
    }
}

/// The definitions of [`chain`] and [`operations`] without their comparisons
/// of lengths, which always hold.
pub proof fn lemma_definitions_unfold(s: Seq<u8>, level: Level)
    ensures
        chain(s, level) == match first_operand(s, level) {
            Ok((rest, first)) => Ok(
                (operations(rest, level).0, combine(first, operations(rest, level).1)),
            ),
            Err(e) => Err(e),
        },
        operations(s, level) == if s.len() > 0 && level.operator(s[0]) is Some {
            match chain(s.skip(1), level.operand()) {
                Ok((rest, operand)) => (
                    operations(rest, level).0,
                    seq![(level.operator(s[0])->0, operand)] + operations(rest, level).1,
                ),
                Err(_) => (s, seq![]),
            }
        } else {
            (s, seq![])
        },
{
    lemma_chain_consumes(s, Level::Product);
    if s.len() > 0 {
        lemma_chain_consumes(s.skip(1), level.operand());
    }
}

/// Reading operations stops where no further operation can be read.
pub proof fn lemma_operations_stop(s: Seq<u8>, level: Level)
    ensures
        operations(operations(s, level).0, level).1.len() == 0,
    decreases s.len(),
{
    if s.len() > 0 && level.operator(s[0]) is Some {
        if let Ok((rest, _)) = chain(s.skip(1), level.operand()) {
            if rest.len() < s.len() {
                lemma_operations_stop(rest, level);
            }
        }
    }
}

/// After `^`, one operand is all there is to read: it takes the powers that
/// follow it for itself.
pub proof fn lemma_power_once(s: Seq<u8>)
    ensures
        operations(s, Level::Power).1.len() <= 1,
{
    if s.len() > 0 && Level::Power.operator(s[0]) is Some {
        let after = s.skip(1);
        lemma_primary_consumes(after);
        if let Ok((rest, _)) = first_operand(after, Level::Power) {
            let end = operations(rest, Level::Power).0;
            lemma_operations_stop(rest, Level::Power);
            if end.len() < s.len() {
                assert(operations(s, Level::Power).1.len() == 1 + operations(
                    end,
                    Level::Power,
                ).1.len());
            }
        }
    }
}

/// An equation that parses is made of numerals, and what is left over is a
/// shorter end of the input.
pub proof fn theorem_equation_consumes(s: Seq<u8>)
    ensures
        equation(s) matches Ok((rest, eq)) ==> rest.len() < s.len() && is_suffix(rest, s)
            && eq.wf(),
{
    lemma_chain_consumes(s, Level::Sum);
    if let Ok((rest, _)) = expression(s) {
        if starts_with(rest, EQUALS) {
            lemma_number_consumes(rest.skip(1));
            if let Ok((end, _)) = number(rest.skip(1)) {
                lemma_suffix_of_suffix(end, rest.skip(1), rest);
                lemma_suffix_of_suffix(end, rest, s);
            }
        }
    }
}

/// An expression, at whatever level it is read, fails only at its first
/// operand, where neither a number nor a parenthesized expression stands:
/// the failure is that of the number, which is that no digit stands after
/// the blanks and the sign.
pub proof fn theorem_chain_failure(s: Seq<u8>, level: Level)
    ensures
        chain(s, level) matches Err(f) ==> f == (FailureView {
            input: skip_sign(skip_blank(s)),
            kind: FailureKind::ExpectedDigit,
        }) && literal_len(f.input) == 0,
    decreases level.rank(),
{
    match level {
        Level::Power => {
            assert(primary(s) is Err ==> number(s) is Err);
        },
        Level::Product => theorem_chain_failure(s, Level::Power),
        Level::Sum => theorem_chain_failure(s, Level::Product),
    }
}

/// An equation fails where its expression fails, where no `=` follows the
/// expression, and where no digit follows the `=`, the blanks and the sign.
pub proof fn theorem_equation_failure(s: Seq<u8>)
    ensures
        equation(s) matches Err(f) ==> match expression(s) {
            Err(g) => f == g,
            Ok((rest, _)) => if starts_with(rest, EQUALS) {
                f == (FailureView {
                    input: skip_sign(skip_blank(rest.skip(1))),
                    kind: FailureKind::ExpectedDigit,
                })
            } else {
                f == (FailureView { input: rest, kind: FailureKind::ExpectedChar })
            },
        },
{
}

} // verus!
