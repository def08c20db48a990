//! What is read was written: whatever the grammar reads from an input is
//! the tree of an admitted layout, and the part of the input that it used
//! up is the text of that layout.

use vstd::prelude::*;
use crate::grammar::{
    chain, combine, equation, expression, first_operand, lemma_power_once, number, operations,
    parenthesized, primary, skip_sign, Level,
};
use crate::layout::{all_blank, EquationLayout, Layout};
use crate::syntax::{ExprView, NumeralView};
use crate::text::numeral_text;
use crate::tokens::{
    blank_run, lemma_blank_run, lemma_literal_alone, literal_len, skip_blank, starts_with, CLOSE,
    EQUALS, MINUS, OPEN,
};

verus! {

/// The blanks at the front of `s`.
pub open spec fn leading_blanks(s: Seq<u8>) -> Seq<u8> {
    s.take(blank_run(s) as int)
}

/// The blanks at the front of an input and the rest make up the input.
pub proof fn lemma_leading_blanks(s: Seq<u8>)
    ensures
        all_blank(leading_blanks(s)),
        leading_blanks(s) + skip_blank(s) == s,
{
    lemma_blank_run(s);
}

/// The layout of the number at the front of `s`, where there is one.
pub open spec fn number_layout(s: Seq<u8>) -> Layout {
    let signed = skip_blank(s);
    let unsigned = skip_sign(signed);
    let tail = unsigned.skip(literal_len(unsigned) as int);
    Layout::Number {
        before: leading_blanks(s),
        numeral: NumeralView {
            negative: starts_with(signed, MINUS),
            literal: unsigned.take(literal_len(unsigned) as int),
        },
        after: leading_blanks(tail),
    }
}

/// The layout of the primary at the front of `s`, where there is one.
pub open spec fn primary_layout(s: Seq<u8>) -> Layout
    decreases s.len(), 0nat, 2nat,
{
    let opened = skip_blank(s);
    if parenthesized(s) is Ok && starts_with(opened, OPEN) {
        proof {
            lemma_blank_run(s);
        }
        let inner = opened.skip(1);
        let closed = chain(inner, Level::Sum)->Ok_0.0.skip(1);
        Layout::Group {
            before: leading_blanks(s),
            inner: Box::new(chain_layout(inner, Level::Sum)),
            after: leading_blanks(closed),
        }
    } else {
        number_layout(s)
    }
}

/// The layout of the chain of the given level at the front of `s`, where
/// there is one.
pub open spec fn chain_layout(s: Seq<u8>, level: Level) -> Layout
    decreases s.len(), level.rank(), 1nat,
{
    let first = match level {
        Level::Power => primary_layout(s),
        Level::Product => chain_layout(s, Level::Power),
        Level::Sum => chain_layout(s, Level::Product),
    };
    match first_operand(s, level) {
        Ok((rest, _)) => if rest.len() <= s.len() {
            operations_layout(first, rest, level)
        } else {
            first
        },
        Err(_) => first,
    }
}

/// The layout of a first operand and the operations of the given level at
/// the front of `s`.
pub open spec fn operations_layout(first: Layout, s: Seq<u8>, level: Level) -> Layout
    decreases s.len(), level.rank(), 0nat,
{
    if s.len() > 0 && level.operator(s[0]) is Some {
        match chain(s.skip(1), level.operand()) {
            Ok((rest, _)) => if rest.len() < s.len() {
                operations_layout(
                    Layout::Operation {
                        left: Box::new(first),
                        operator: level.operator(s[0])->0,
                        right: Box::new(chain_layout(s.skip(1), level.operand())),
                    },
                    rest,
                    level,
                )
            } else {
                first
            },
            Err(_) => first,
        }
    } else {
        first
    }
}

/// A number that is read was written as its layout.
pub proof fn lemma_number_written(s: Seq<u8>)
    ensures
        number(s) matches Ok((rest, n)) ==> {
            let w = number_layout(s);
            &&& w.wf()
            &&& w.tier() == 0
            &&& w.tree() == ExprView::Number(n)
            &&& w.text() + rest == s
        },
{
    if let Ok((rest, n)) = number(s) {
        let signed = skip_blank(s);
        let unsigned = skip_sign(signed);
        let len = literal_len(unsigned) as int;
        let tail = unsigned.skip(len);
        lemma_literal_alone(unsigned);
        lemma_leading_blanks(s);
        lemma_leading_blanks(tail);
        let w = number_layout(s);
        assert(w.text() + rest == leading_blanks(s) + (numeral_text(n) + (leading_blanks(tail)
            + rest)));
    }
}

/// A first operand and the operations that are read after it were written
/// as their layout.
pub proof fn lemma_operations_written(first: Layout, s: Seq<u8>, level: Level)
    requires
        first.wf(),
        first.tier() <= level.rank(),
        level == Level::Power && operations(s, level).1.len() > 0 ==> first.tier() == 0,
    ensures
        ({
            let w = operations_layout(first, s, level);
            &&& w.wf()
            &&& w.tier() <= level.rank()
            &&& w.tree() == combine(first.tree(), operations(s, level).1)
            &&& w.text() + operations(s, level).0 == first.text() + s
        }),
    decreases s.len(), level.rank(), 0nat,
{
    if s.len() > 0 && level.operator(s[0]) is Some {
        let after = s.skip(1);
        if let Ok((rest, operand)) = chain(after, level.operand()) {
            lemma_chain_written(after, level.operand());
            let right = chain_layout(after, level.operand());
            let operator = level.operator(s[0])->0;
            let grown = Layout::Operation {
                left: Box::new(first),
                operator,
                right: Box::new(right),
            };
            let more = operations(rest, level).1;
            assert((seq![(operator, operand)] + more).skip(1) == more);
            if level == Level::Power {
                lemma_power_once(s);
            }
            lemma_operations_written(grown, rest, level);
            assert(grown.text() + rest == first.text() + s) by {
                assert(grown.text() + rest == first.text() + (seq![s[0]] + (right.text() + rest)));
            }
        }
    }
}

/// A primary that is read was written as its layout.
pub proof fn lemma_primary_written(s: Seq<u8>)
    ensures
        primary(s) matches Ok((rest, e)) ==> {
            let w = primary_layout(s);
            &&& w.wf()
            &&& w.tier() == 0
            &&& w.tree() == e
            &&& w.text() + rest == s
        },
    decreases s.len(), 0nat, 2nat,
{
    let opened = skip_blank(s);
    lemma_leading_blanks(s);
    if let Ok((rest, e)) = parenthesized(s) {
        let inner = opened.skip(1);
        let closing = chain(inner, Level::Sum)->Ok_0.0;
        let closed = closing.skip(1);
        lemma_chain_written(inner, Level::Sum);
        lemma_leading_blanks(closed);
        let w = primary_layout(s);
        let within = chain_layout(inner, Level::Sum);
        assert(w.text() + rest == s) by {
            assert(closing == seq![CLOSE] + closed);
            assert(w.text() + rest == leading_blanks(s) + (seq![OPEN] + (within.text() + (seq![
                CLOSE,
            ] + (leading_blanks(closed) + rest)))));
        }
    } else {
        lemma_number_written(s);
    }
}

/// A chain that is read was written as its layout.
pub proof fn lemma_chain_written(s: Seq<u8>, level: Level)
    ensures
        chain(s, level) matches Ok((rest, e)) ==> {
            let w = chain_layout(s, level);
            &&& w.wf()
            &&& w.tier() <= level.rank()
            &&& w.tree() == e
            &&& w.text() + rest == s
        },
    decreases s.len(), level.rank(), 1nat,
{
    if let Ok((rest, first)) = first_operand(s, level) {
        match level {
            Level::Power => {
                lemma_primary_written(s);
            },
            Level::Product => {
                lemma_chain_written(s, Level::Power);
            },
            Level::Sum => {
                lemma_chain_written(s, Level::Product);
            },
        }
        let before = match level {
            Level::Power => primary_layout(s),
            Level::Product => chain_layout(s, Level::Power),
            Level::Sum => chain_layout(s, Level::Product),
        };
        lemma_operations_written(before, rest, level);
    }
}

/// The layout of the equation at the front of `s`, where there is one.
pub open spec fn equation_layout(s: Seq<u8>) -> EquationLayout {
    let right = expression(s)->Ok_0.0.skip(1);
    let signed = skip_blank(right);
    let unsigned = skip_sign(signed);
    let tail = unsigned.skip(literal_len(unsigned) as int);
    EquationLayout {
        expression: chain_layout(s, Level::Sum),
        before: leading_blanks(right),
        expected: NumeralView {
            negative: starts_with(signed, MINUS),
            literal: unsigned.take(literal_len(unsigned) as int),
        },
        after: leading_blanks(tail),
    }
}

/// What is read was written: an expression that is read from an input is
/// the tree of an admitted layout, and the input is the text of that layout
/// and what is left over.
pub proof fn theorem_expression_written(s: Seq<u8>)
    ensures
        expression(s) matches Ok((rest, e)) ==> exists|w: Layout|
            w.wf() && w.tree() == e && #[trigger] w.text() + rest == s,
{
    lemma_chain_written(s, Level::Sum);
    if let Ok((rest, e)) = expression(s) {
        let w = chain_layout(s, Level::Sum);
        assert(w.wf() && w.tree() == e && w.text() + rest == s);
    }
}

/// What is read was written: an equation that is read from an input is the
/// equation of an admitted layout, and the input is the text of that layout
/// and what is left over. Nothing else is read as an equation.
pub proof fn theorem_equation_written(s: Seq<u8>)
    ensures
        equation(s) matches Ok((rest, eq)) ==> exists|w: EquationLayout|
            w.wf() && w.value() == eq && #[trigger] w.text() + rest == s,
{
    if let Ok((rest, eq)) = equation(s) {
        lemma_chain_written(s, Level::Sum);
        let from_equals = expression(s)->Ok_0.0;
        let right = from_equals.skip(1);
        lemma_number_written(right);
        let w = equation_layout(s);
        let left = chain_layout(s, Level::Sum);
        let value = number_layout(right);
        assert(w.text() + rest == s) by {
            assert(w.text() + rest == left.text() + (seq![EQUALS] + (value.text() + rest)));
        }
        assert(w.wf() && w.value() == eq);
    }
}

} // verus!
