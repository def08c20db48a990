//! The text of a tree read back: where a tree needs no parentheses, parsing
//! its text gives the tree again.

use vstd::prelude::*;
use vstd::utf8::*;
use crate::failure::FailureView;
use crate::grammar::{
    chain, combine, equation, expression, first_operand, lemma_chain_consumes, lemma_power_once,
    lemma_primary_consumes, operations, Level,
};
use crate::layout::{
    all_blank, ends_numeral, lemma_skip_blank_none, lemma_skip_blank_prefix, theorem_equation_reads,
    EquationLayout, Layout,
};
use crate::syntax::{EquationView, ExprView, NumeralView, Operator};
use crate::text::{equation_text, expr_text, mark_text, numeral_text, operator_text, padding};
use crate::tokens::{lemma_blank_run, lemma_literal_alone, skip_blank, EQUALS, OPEN, SPACE};

verus! {

impl ExprView {
    /// How loosely the outermost part binds: 0 for a numeral, else the rank
    /// of the operator's level.
    pub open spec fn tier(self) -> nat {
        match self {
            ExprView::Number(_) => 0,
            ExprView::BinaryOp(operator, _, _) => operator.level().rank(),
        }
    }

    /// Whether the tree can be written without parentheses: each operand
    /// binds tightly enough for the place where it stands. The left operand
    /// of `^` is a numeral, its right operand at most a power; the right
    /// operand of `*` and `/` is at most a power, their left operand at
    /// most a product; the right operand of `+` and `-` is at most a
    /// product.
    pub open spec fn needs_no_parentheses(self) -> bool
        decreases self,
    {
        match self {
            ExprView::Number(_) => true,
            ExprView::BinaryOp(operator, left, right) => {
                &&& left.needs_no_parentheses()
                &&& right.needs_no_parentheses()
                &&& match operator.level() {
                    Level::Power => left.tier() == 0 && right.tier() <= 1,
                    Level::Product => left.tier() <= 2 && right.tier() <= 1,
                    Level::Sum => right.tier() <= 2,
                }
            },
        }
    }
}

/// The layout that the text of a tree follows, with the given blanks before
/// and after it.
pub open spec fn spelled(e: ExprView, before: Seq<u8>, after: Seq<u8>) -> Layout
    decreases e,
{
    match e {
        ExprView::Number(numeral) => Layout::Number { before, numeral, after },
        ExprView::BinaryOp(operator, left, right) => Layout::Operation {
            left: Box::new(spelled(*left, before, padding(operator))),
            operator,
            right: Box::new(spelled(*right, padding(operator), after)),
        },
    }
}

/// The layout that the text of a tree follows spells that text, is written
/// for that tree, and is admitted where the tree is made of numerals and
/// needs no parentheses.
pub proof fn lemma_spelled(e: ExprView, before: Seq<u8>, after: Seq<u8>)
    requires
        all_blank(before),
        all_blank(after),
    ensures
        spelled(e, before, after).text() == before + expr_text(e) + after,
        spelled(e, before, after).tree() == e,
        spelled(e, before, after).tier() == e.tier(),
        e.wf() && e.needs_no_parentheses() ==> spelled(e, before, after).wf(),
    decreases e,
{
    match e {
        ExprView::Number(_) => {},
        ExprView::BinaryOp(operator, left, right) => {
            let pad = padding(operator);
            lemma_spelled(*left, before, pad);
            lemma_spelled(*right, pad, after);
            assert(spelled(e, before, after).text() == (before + expr_text(*left) + pad) + seq![
                operator.byte(),
            ] + (pad + expr_text(*right) + after));
            assert((before + expr_text(*left) + pad) + seq![operator.byte()] + (pad + expr_text(
                *right,
            ) + after) == before + (expr_text(*left) + operator_text(operator) + expr_text(*right))
                + after);
        },
    }
}

/// The text of an equation that needs no parentheses, read back, is that
/// equation. What is left over is what followed the text, without the
/// blanks at its front.
pub proof fn theorem_text_reads(eq: EquationView, t: Seq<u8>)
    requires
        eq.wf(),
        eq.expression.needs_no_parentheses(),
        ends_numeral(t),
    ensures
        equation(
            expr_text(eq.expression) + seq![SPACE, EQUALS, SPACE] + numeral_text(eq.expected) + t,
        ) == Ok::<(Seq<u8>, EquationView), FailureView>((skip_blank(t), eq)),
{
    let none = Seq::<u8>::empty();
    let one = seq![SPACE];
    let w = EquationLayout {
        expression: spelled(eq.expression, none, one),
        before: one,
        expected: eq.expected,
        after: none,
    };
    lemma_spelled(eq.expression, none, one);
    theorem_equation_reads(w, t);
    assert(w.text() + t == expr_text(eq.expression) + seq![SPACE, EQUALS, SPACE] + numeral_text(
        eq.expected,
    ) + t);
}

/// A mark is three bytes, none of them ASCII.
pub proof fn lemma_mark_bytes(correct: bool)
    ensures
        mark_text(correct).len() == 3,
        forall|i: int| 0 <= i < 3 ==> #[trigger] mark_text(correct)[i] >= 0x80,
{
    reveal_strlit("\u{2714}");
    reveal_strlit("\u{274c}");
    let text = if correct {
        "\u{2714}"@
    } else {
        "\u{274c}"@
    };
    let scalar = text[0] as u32;
    assert(encode_utf8(text) == encode_scalar(scalar) + encode_utf8(text.drop_first()));
    assert((0xE0u8 | ((scalar >> 12) & 0x0F) as u8) >= 0x80u8) by (bit_vector);
    assert((0x80u8 | ((scalar >> 6) & 0x3F) as u8) >= 0x80u8) by (bit_vector);
    assert((0x80u8 | (scalar & 0x3F) as u8) >= 0x80u8) by (bit_vector);
}

/// Round trip: the text of an equation that is made of numerals and needs no
/// parentheses, read back, is that equation, and the mark is what is left
/// over.
pub proof fn theorem_round_trip(eq: EquationView, correct: bool)
    requires
        eq.wf(),
        eq.expression.needs_no_parentheses(),
    ensures
        equation(equation_text(eq, correct)) == Ok::<(Seq<u8>, EquationView), FailureView>(
            (mark_text(correct), eq),
        ),
{
    let mark = mark_text(correct);
    let t = seq![SPACE] + mark;
    lemma_mark_bytes(correct);
    theorem_text_reads(eq, t);
    lemma_skip_blank_prefix(seq![SPACE], mark);
    lemma_skip_blank_none(mark);
    assert(equation_text(eq, correct) == expr_text(eq.expression) + seq![SPACE, EQUALS, SPACE]
        + numeral_text(eq.expected) + t);
}

/// Two numerals with an operator between them, `=` and a third numeral are
/// read as the equation of that operator over the two numerals, with the
/// third as the expected value, and nothing is left over.
pub proof fn theorem_binary_equation(
    a: NumeralView,
    operator: Operator,
    b: NumeralView,
    c: NumeralView,
)
    requires
        a.wf(),
        b.wf(),
        c.wf(),
    ensures
        equation(
            numeral_text(a) + operator_text(operator) + numeral_text(b) + seq![SPACE, EQUALS, SPACE]
                + numeral_text(c),
        ) == Ok::<(Seq<u8>, EquationView), FailureView>(
            (
                Seq::empty(),
                EquationView {
                    expression: ExprView::BinaryOp(
                        operator,
                        Box::new(ExprView::Number(a)),
                        Box::new(ExprView::Number(b)),
                    ),
                    expected: c,
                },
            ),
        ),
{
    let none = Seq::<u8>::empty();
    let eq = EquationView {
        expression: ExprView::BinaryOp(
            operator,
            Box::new(ExprView::Number(a)),
            Box::new(ExprView::Number(b)),
        ),
        expected: c,
    };
    let left = ExprView::Number(a);
    let right = ExprView::Number(b);
    assert(left.wf());
    assert(right.wf());
    assert(left.needs_no_parentheses() && right.needs_no_parentheses());
    assert(expr_text(left) == numeral_text(a) && expr_text(right) == numeral_text(b));
    theorem_text_reads(eq, none);
    lemma_skip_blank_none(none);
}

/// Whether no opening parenthesis stands in `s`.
pub open spec fn no_parenthesis(s: Seq<u8>) -> bool {
    forall|i: int| 0 <= i < s.len() ==> #[trigger] s[i] != OPEN
}

/// Whether operations of the given level are ones that a text without
/// parentheses gives: each operator is of the level, each operand needs no
/// parentheses and binds tightly enough to stand after the operator.
pub open spec fn plain_operations(list: Seq<(Operator, ExprView)>, level: Level) -> bool {
    forall|i: int|
        0 <= i < list.len() ==> {
            &&& (#[trigger] list[i]).0.level() == level
            &&& list[i].1.needs_no_parentheses()
            &&& list[i].1.tier() <= level.operand().rank()
        }
}

/// Grouping such operations under a first operand that binds tightly enough
/// gives a tree that needs no parentheses.
pub proof fn lemma_combine_plain(first: ExprView, list: Seq<(Operator, ExprView)>, level: Level)
    requires
        first.needs_no_parentheses(),
        first.tier() <= level.rank(),
        plain_operations(list, level),
        level == Level::Power ==> first.tier() == 0 && list.len() <= 1,
    ensures
        combine(first, list).needs_no_parentheses(),
        combine(first, list).tier() <= level.rank(),
    decreases list.len(),
{
    if list.len() > 0 {
        let grown = ExprView::BinaryOp(list[0].0, Box::new(first), Box::new(list[0].1));
        let later = list.skip(1);
        if level != Level::Power {
            lemma_combine_plain(grown, later, level);
        } else {
            assert(combine(grown, later) == grown);
        }
    }
}

/// The operations read from a text without parentheses are such operations.
pub proof fn lemma_operations_plain(s: Seq<u8>, level: Level)
    requires
        no_parenthesis(s),
    ensures
        plain_operations(operations(s, level).1, level),
    decreases s.len(), level.rank(), 0nat,
{
    if s.len() > 0 && level.operator(s[0]) is Some {
        let after = s.skip(1);
        lemma_chain_consumes(after, level.operand());
        lemma_chain_plain(after, level.operand());
        if let Ok((rest, operand)) = chain(after, level.operand()) {
            if rest.len() < s.len() {
                lemma_operations_plain(rest, level);
            }
        }
    }
}

/// What is read from a text without parentheses needs none, and binds as
/// tightly as the level at which it was read.
pub proof fn lemma_chain_plain(s: Seq<u8>, level: Level)
    requires
        no_parenthesis(s),
    ensures
        chain(s, level) matches Ok((_, e)) ==> e.needs_no_parentheses() && e.tier()
            <= level.rank(),
        level == Level::Power ==> (first_operand(s, level) matches Ok((_, e)) ==> e.tier() == 0),
    decreases s.len(), level.rank(), 1nat,
{
    match level {
        Level::Power => {
            lemma_blank_run(s);
            lemma_primary_consumes(s);
        },
        Level::Product => {
            lemma_chain_plain(s, Level::Power);
            lemma_chain_consumes(s, Level::Power);
        },
        Level::Sum => {
            lemma_chain_plain(s, Level::Product);
            lemma_chain_consumes(s, Level::Product);
        },
    }
    if let Ok((rest, first)) = first_operand(s, level) {
        lemma_operations_plain(rest, level);
        lemma_power_once(rest);
        lemma_combine_plain(first, operations(rest, level).1, level);
    }
}

/// The text of a tree made of numerals has no parentheses.
pub proof fn lemma_text_plain(e: ExprView)
    requires
        e.wf(),
    ensures
        no_parenthesis(expr_text(e)),
    decreases e,
{
    match e {
        ExprView::Number(n) => {
            lemma_numeral_text_plain(n);
        },
        ExprView::BinaryOp(operator, left, right) => {
            lemma_text_plain(*left);
            lemma_text_plain(*right);
        },
    }
}

/// The text of a numeral has no parentheses.
pub proof fn lemma_numeral_text_plain(n: NumeralView)
    requires
        n.wf(),
    ensures
        no_parenthesis(numeral_text(n)),
{
    lemma_literal_alone(n.literal);
}

/// A text without parentheses is read as a tree that needs none.
pub proof fn theorem_plain_text(s: Seq<u8>)
    requires
        no_parenthesis(s),
    ensures
        expression(s) matches Ok((_, e)) ==> e.needs_no_parentheses(),
        equation(s) matches Ok((_, eq)) ==> eq.expression.needs_no_parentheses(),
{
    lemma_chain_plain(s, Level::Sum);
}

/// Only such equations make the round trip: where the text of an equation,
/// read back, is that equation, the equation needs no parentheses.
pub proof fn theorem_round_trip_only(eq: EquationView, correct: bool)
    requires
        eq.wf(),
        equation(equation_text(eq, correct)) matches Ok((_, read)) && read == eq,
    ensures
        eq.expression.needs_no_parentheses(),
{
    lemma_text_plain(eq.expression);
    lemma_numeral_text_plain(eq.expected);
    lemma_mark_bytes(correct);
    theorem_plain_text(equation_text(eq, correct));
}

} // verus!
