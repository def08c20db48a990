//! Every way of writing an expression, and the proof that the grammar reads
//! each of them as the tree it was written for.
//!
//! A [`Layout`] is a tree together with the choices that the grammar leaves
//! to the writer: the blanks around each numeral, and parentheses with the
//! blanks around them. Its text is what those choices spell. The theorems
//! here say that parsing the text of a layout gives the tree of the layout,
//! whatever the choices were.

use vstd::prelude::*;
use crate::failure::FailureView;
use crate::grammar::{
    chain, combine, equation, expression, first_operand, number, operations, parenthesized, primary,
    skip_sign, Level,
};
use crate::syntax::{EquationView, ExprView, NumeralView, Operator};
use crate::text::numeral_text;
use crate::tokens::{
    blank_run, digit_run, is_blank, is_digit, lemma_blank_run, lemma_blank_run_unique,
    lemma_digit_run, lemma_digit_run_unique, literal_len, skip_blank, CARET, CLOSE, EQUALS, MINUS,
    OPEN, PLUS, POINT, SLASH, STAR,
};

verus! {

/// Whether every byte of `s` is a blank.
pub open spec fn all_blank(s: Seq<u8>) -> bool {
    forall|i: int| 0 <= i < s.len() ==> is_blank(#[trigger] s[i])
}

/// Whether a numeral that stands before `t` ends there: `t` does not go on
/// with a digit or a point.
pub open spec fn ends_numeral(t: Seq<u8>) -> bool {
    t.len() > 0 ==> !is_digit(t[0]) && t[0] != POINT
}

/// Blanks before a text are skipped together with those at its front.
pub proof fn lemma_skip_blank_prefix(blanks: Seq<u8>, t: Seq<u8>)
    requires
        all_blank(blanks),
    ensures
        skip_blank(blanks + t) == skip_blank(t),
{
    let s = blanks + t;
    let n = blanks.len() + blank_run(t);
    lemma_blank_run(t);
    lemma_blank_run_unique(s, n as int);
}

/// Nothing is skipped where no blank stands first.
pub proof fn lemma_skip_blank_none(s: Seq<u8>)
    requires
        s.len() > 0 ==> !is_blank(s[0]),
    ensures
        skip_blank(s) == s,
{
}

/// A numeral is read whole, and no further, where what follows it does not
/// go on with a digit or a point.
pub proof fn lemma_literal_followed(literal: Seq<u8>, t: Seq<u8>)
    requires
        literal.len() > 0,
        literal_len(literal) == literal.len(),
        ends_numeral(t),
    ensures
        literal_len(literal + t) == literal.len(),
        (literal + t).take(literal.len() as int) == literal,
        (literal + t).skip(literal.len() as int) == t,
        is_digit(literal[0]),
{
    let s = literal + t;
    let whole = digit_run(literal) as int;
    let after = literal.skip(whole + 1);
    let fraction = digit_run(after) as int;
    lemma_digit_run(literal);
    lemma_digit_run(after);
    lemma_digit_run_unique(s, whole);
    if whole < literal.len() {
        let after_s = s.skip(whole + 1);
        assert forall|i: int| 0 <= i < fraction implies is_digit(#[trigger] after_s[i]) by {
            assert(after_s[i] == after[i]);
        }
        lemma_digit_run_unique(after_s, fraction);
    }
}

/// A number written with blanks before and after it is read as that number,
/// and the blanks that follow are read with it.
pub proof fn lemma_number_reads(before: Seq<u8>, n: NumeralView, after: Seq<u8>, t: Seq<u8>)
    requires
        all_blank(before),
        all_blank(after),
        n.wf(),
        ends_numeral(t),
    ensures
        number(before + numeral_text(n) + after + t) == Ok::<(Seq<u8>, NumeralView), FailureView>(
            (skip_blank(t), n),
        ),
        parenthesized(before + numeral_text(n) + after + t) is Err,
{
    let s = before + numeral_text(n) + after + t;
    let signed = numeral_text(n) + (after + t);
    let tail = after + t;
    assert(s == before + signed);
    lemma_literal_followed(n.literal, tail);
    lemma_skip_blank_prefix(before, signed);
    assert(skip_blank(s) == signed);
    let unsigned = n.literal + tail;
    assert(skip_sign(signed) == unsigned);
    lemma_skip_blank_prefix(after, t);
}

/// A way of writing an expression: the tree, the blanks around each of its
/// numerals, and the parentheses with the blanks around them.
pub enum Layout {
    Number { before: Seq<u8>, numeral: NumeralView, after: Seq<u8> },
    Group { before: Seq<u8>, inner: Box<Layout>, after: Seq<u8> },
    Operation { left: Box<Layout>, operator: Operator, right: Box<Layout> },
}

impl Layout {
    /// How loosely the outermost part binds: 0 for a numeral and for
    /// parentheses, else the rank of the operator's level.
    pub open spec fn tier(self) -> nat {
        match self {
            Layout::Number { .. } => 0,
            Layout::Group { .. } => 0,
            Layout::Operation { operator, .. } => operator.level().rank(),
        }
    }

    /// The layout is one that the grammar admits: blanks are blanks,
    /// numerals are numerals, and an operand binds tightly enough for the
    /// place where it stands. The left operand of `^` is a numeral or in
    /// parentheses, its right operand at most a power; the right operand of
    /// `*` and `/` is at most a power, their left operand at most a product;
    /// the right operand of `+` and `-` is at most a product.
    pub open spec fn wf(self) -> bool
        decreases self,
    {
        match self {
            Layout::Number { before, numeral, after } => all_blank(before) && numeral.wf()
                && all_blank(after),
            Layout::Group { before, inner, after } => all_blank(before) && inner.wf()
                && all_blank(after),
            Layout::Operation { left, operator, right } => {
                &&& left.wf()
                &&& right.wf()
                &&& match operator.level() {
                    Level::Power => left.tier() == 0 && right.tier() <= 1,
                    Level::Product => left.tier() <= 2 && right.tier() <= 1,
                    Level::Sum => right.tier() <= 2,
                }
            },
        }
    }

    /// What the layout spells.
    pub open spec fn text(self) -> Seq<u8>
        decreases self,
    {
        match self {
            Layout::Number { before, numeral, after } => before + numeral_text(numeral) + after,
            Layout::Group { before, inner, after } => before + seq![OPEN] + inner.text()
                + seq![CLOSE] + after,
            Layout::Operation { left, operator, right } => left.text() + seq![operator.byte()]
                + right.text(),
        }
    }

    /// The tree that the layout was written for.
    pub open spec fn tree(self) -> ExprView
        decreases self,
    {
        match self {
            Layout::Number { numeral, .. } => ExprView::Number(numeral),
            Layout::Group { inner, .. } => inner.tree(),
            Layout::Operation { left, operator, right } => ExprView::BinaryOp(
                operator,
                Box::new(left.tree()),
                Box::new(right.tree()),
            ),
        }
    }
}

/// Whether an expression of the given tier, read at the given level, ends
/// before `t`: `t` does not go on with an operator that binds tighter than
/// the level, nor, after a power, with `^`.
pub open spec fn stops(t: Seq<u8>, level: Level, tier: nat) -> bool {
    t.len() > 0 ==> {
        &&& (level.rank() > 1 || tier == 1) ==> t[0] != CARET
        &&& level.rank() > 2 ==> t[0] != STAR && t[0] != SLASH
    }
}

/// What reading at the given level gives after an operand `e` has been read
/// and `t` is what follows it.
pub open spec fn continued(e: ExprView, t: Seq<u8>, level: Level) -> (Seq<u8>, ExprView) {
    (operations(t, level).0, combine(e, operations(t, level).1))
}

/// Parentheses with blanks around them are read as what stands in them.
proof fn lemma_group_reads(before: Seq<u8>, inner: Layout, after: Seq<u8>, t: Seq<u8>)
    requires
        all_blank(before),
        all_blank(after),
        chain(inner.text() + (seq![CLOSE] + after + t), Level::Sum) == Ok::<
            (Seq<u8>, ExprView),
            FailureView,
        >((seq![CLOSE] + after + t, inner.tree())),
    ensures
        parenthesized(before + seq![OPEN] + inner.text() + seq![CLOSE] + after + t) == Ok::<
            (Seq<u8>, ExprView),
            FailureView,
        >((skip_blank(t), inner.tree())),
{
    let s = before + seq![OPEN] + inner.text() + seq![CLOSE] + after + t;
    let closing = seq![CLOSE] + after + t;
    let opened = seq![OPEN] + (inner.text() + closing);
    assert(s == before + opened);
    lemma_skip_blank_prefix(before, opened);
    lemma_skip_blank_none(opened);
    assert(opened.skip(1) == inner.text() + closing);
    assert(closing.skip(1) == after + t);
    lemma_skip_blank_prefix(after, t);
}

/// Reading the text of an admitted layout at a level that admits it gives
/// the tree of the layout, and goes on with what follows as after any
/// operand.
pub proof fn lemma_chain_reads(w: Layout, t: Seq<u8>, level: Level)
    requires
        w.wf(),
        w.tier() <= level.rank(),
        ends_numeral(t),
        stops(skip_blank(t), level, w.tier()),
    ensures
        chain(w.text() + t, level) == Ok::<(Seq<u8>, ExprView), FailureView>(
            continued(w.tree(), skip_blank(t), level),
        ),
    decreases w, level.rank(),
{
    let s = w.text() + t;
    let rest = skip_blank(t);
    lemma_blank_run(t);
    if w.tier() < level.rank() {
        // The operand is read whole one level down, and this level goes on
        // from there.
        match level {
            Level::Power => {
                lemma_primary_reads(w, t);
            },
            Level::Product => {
                lemma_chain_reads(w, t, Level::Power);
            },
            Level::Sum => {
                lemma_chain_reads(w, t, Level::Product);
            },
        }
        assert(first_operand(s, level) == Ok::<(Seq<u8>, ExprView), FailureView>(
            (rest, w.tree()),
        ));
    } else {
        match w {
            Layout::Operation { left, operator, right } => {
                let after_operator = right.text() + t;
                let from_operator = seq![operator.byte()] + after_operator;
                assert(s == left.text() + from_operator);
                lemma_skip_blank_none(from_operator);
                lemma_chain_reads(*left, from_operator, level);
                // The operator and its operand are the first operation read
                // after the left operand.
                let below = level.operand();
                assert(from_operator.skip(1) == after_operator);
                lemma_chain_reads(*right, t, below);
                assert(chain(after_operator, below) == Ok::<
                    (Seq<u8>, ExprView),
                    FailureView,
                >((rest, right.tree())));
                let first = (operator, right.tree());
                let more = operations(rest, level).1;
                assert(operations(from_operator, level) == (
                    operations(rest, level).0,
                    seq![first] + more,
                ));
                assert((seq![first] + more).skip(1) == more);
            },
            _ => {},
        }
    }
}

/// A numeral or parentheses, written with blanks around them, are read as
/// a primary.
pub proof fn lemma_primary_reads(w: Layout, t: Seq<u8>)
    requires
        w.wf(),
        w.tier() == 0,
        ends_numeral(t),
    ensures
        primary(w.text() + t) == Ok::<(Seq<u8>, ExprView), FailureView>(
            (skip_blank(t), w.tree()),
        ),
    decreases w, 0nat,
{
    match w {
        Layout::Number { before, numeral, after } => {
            lemma_number_reads(before, numeral, after, t);
        },
        Layout::Group { before, inner, after } => {
            let closing = seq![CLOSE] + after + t;
            lemma_skip_blank_none(closing);
            lemma_chain_reads(*inner, closing, Level::Sum);
            lemma_group_reads(before, *inner, after, t);
        },
        Layout::Operation { .. } => {},
    }
}

/// Whether `t` does not go on with an operator.
pub open spec fn no_operator(t: Seq<u8>) -> bool {
    t.len() > 0 ==> t[0] != CARET && t[0] != STAR && t[0] != SLASH && t[0] != PLUS && t[0]
        != MINUS
}

/// Reading the text of an admitted layout as an expression gives the tree
/// of the layout, whatever blanks and parentheses the layout has. What is
/// left over is what followed the text, without the blanks at its front.
pub proof fn theorem_expression_reads(w: Layout, t: Seq<u8>)
    requires
        w.wf(),
        ends_numeral(t),
        no_operator(skip_blank(t)),
    ensures
        expression(w.text() + t) == Ok::<(Seq<u8>, ExprView), FailureView>(
            (skip_blank(t), w.tree()),
        ),
{
    lemma_chain_reads(w, t, Level::Sum);
}

/// A way of writing an equation: a layout of the expression, then `=`, then
/// the expected value with blanks around it.
pub struct EquationLayout {
    pub expression: Layout,
    pub before: Seq<u8>,
    pub expected: NumeralView,
    pub after: Seq<u8>,
}

impl EquationLayout {
    /// The layout is one that the grammar admits.
    pub open spec fn wf(self) -> bool {
        self.expression.wf() && all_blank(self.before) && self.expected.wf() && all_blank(
            self.after,
        )
    }

    /// What the layout spells.
    pub open spec fn text(self) -> Seq<u8> {
        self.expression.text() + seq![EQUALS] + self.before + numeral_text(self.expected)
            + self.after
    }

    /// The equation that the layout was written for.
    pub open spec fn value(self) -> EquationView {
        EquationView { expression: self.expression.tree(), expected: self.expected }
    }
}

/// Reading the text of an admitted layout of an equation gives the equation
/// of the layout, whatever blanks and parentheses the layout has. What is
/// left over is what followed the text, without the blanks at its front.
pub proof fn theorem_equation_reads(w: EquationLayout, t: Seq<u8>)
    requires
        w.wf(),
        ends_numeral(t),
    ensures
        equation(w.text() + t) == Ok::<(Seq<u8>, EquationView), FailureView>(
            (skip_blank(t), w.value()),
        ),
{
    let value = w.before + numeral_text(w.expected) + w.after + t;
    let right = seq![EQUALS] + value;
    assert(w.text() + t == w.expression.text() + right);
    lemma_skip_blank_none(right);
    theorem_expression_reads(w.expression, right);
    assert(right.skip(1) == value);
    lemma_number_reads(w.before, w.expected, w.after, t);
}

impl Layout {
    /// The same layout without its blanks.
    pub open spec fn compact(self) -> Layout
        decreases self,
    {
        match self {
            Layout::Number { numeral, .. } => Layout::Number {
                before: Seq::empty(),
                numeral,
                after: Seq::empty(),
            },
            Layout::Group { inner, .. } => Layout::Group {
                before: Seq::empty(),
                inner: Box::new(inner.compact()),
                after: Seq::empty(),
            },
            Layout::Operation { left, operator, right } => Layout::Operation {
                left: Box::new(left.compact()),
                operator,
                right: Box::new(right.compact()),
            },
        }
    }
}

impl EquationLayout {
    /// The same layout without its blanks.
    pub open spec fn compact(self) -> EquationLayout {
        EquationLayout {
            expression: self.expression.compact(),
            before: Seq::empty(),
            expected: self.expected,
            after: Seq::empty(),
        }
    }
}

/// A layout without its blanks is written for the same tree, and is
/// admitted where the layout is.
pub proof fn lemma_compact(w: Layout)
    ensures
        w.compact().tree() == w.tree(),
        w.compact().tier() == w.tier(),
        w.wf() ==> w.compact().wf(),
    decreases w,
{
    match w {
        Layout::Number { .. } => {},
        Layout::Group { inner, .. } => {
            lemma_compact(*inner);
        },
        Layout::Operation { left, right, .. } => {
            lemma_compact(*left);
            lemma_compact(*right);
        },
    }
}

/// Blanks do not matter: two admitted layouts of an equation that differ
/// only in their blanks are read as the same equation.
pub proof fn theorem_blanks_do_not_matter(a: EquationLayout, b: EquationLayout)
    requires
        a.wf(),
        b.wf(),
        a.compact() == b.compact(),
    ensures
        equation(a.text()) == equation(b.text()),
        equation(a.text()) == equation(a.compact().text()),
        equation(a.text()) is Ok,
{
    let none = Seq::<u8>::empty();
    lemma_compact(a.expression);
    lemma_compact(b.expression);
    theorem_equation_reads(a, none);
    theorem_equation_reads(b, none);
    theorem_equation_reads(a.compact(), none);
}

} // verus!
