//! The text of a tree: numerals as they were written, operators between
//! their operands, and no parentheses.

use vstd::prelude::*;
use vstd::string::*;
use vstd::utf8::*;
use crate::syntax::{Equation, EquationView, Expr, ExprView, Numeral, NumeralView, Operator};
use crate::tokens::{EQUALS, MINUS, SPACE};

verus! {

/// A numeral as it is written: the sign, then the digits.
pub open spec fn numeral_text(n: NumeralView) -> Seq<u8> {
    if n.negative {
        seq![MINUS] + n.literal
    } else {
        n.literal
    }
}

/// The blanks that are written on either side of an operator: none around
/// `^`, one space around the others.
pub open spec fn padding(op: Operator) -> Seq<u8> {
    match op {
        Operator::Exponent => Seq::empty(),
        _ => seq![SPACE],
    }
}

/// An operator as it is written between its operands.
pub open spec fn operator_text(op: Operator) -> Seq<u8> {
    padding(op) + seq![op.byte()] + padding(op)
}

/// An expression as it is written: the left operand, the operator, the
/// right operand.
pub open spec fn expr_text(e: ExprView) -> Seq<u8>
    decreases e,
{
    match e {
        ExprView::Number(n) => numeral_text(n),
        ExprView::BinaryOp(op, left, right) => expr_text(*left) + operator_text(op) + expr_text(
            *right,
        ),
    }
}

/// The mark that ends the text of an equation: a check mark where the
/// equation is said to hold, a cross mark where not.
pub open spec fn mark_text(correct: bool) -> Seq<u8> {
    if correct {
        encode_utf8("\u{2714}"@)
    } else {
        encode_utf8("\u{274c}"@)
    }
}

/// An equation as it is written: the expression, ` = `, the expected value,
/// a space and the mark.
pub open spec fn equation_text(eq: EquationView, correct: bool) -> Seq<u8> {
    expr_text(eq.expression) + seq![SPACE, EQUALS, SPACE] + numeral_text(eq.expected) + seq![SPACE]
        + mark_text(correct)
}

/// The bytes of two texts joined are the bytes of the first, then those of
/// the second.
pub proof fn lemma_encode_concat(a: Seq<char>, b: Seq<char>)
    ensures
        encode_utf8(a + b) == encode_utf8(a) + encode_utf8(b),
    decreases a.len(),
{
    if a.len() > 0 {
        assert((a + b).drop_first() == a.drop_first() + b);
        lemma_encode_concat(a.drop_first(), b);
    }
}

/// Adds a text to the end of another.
fn push_text(text: &mut String, more: &str)
    ensures
        encode_utf8(final(text)@) == encode_utf8(old(text)@) + more.spec_bytes(),
{
    proof {
        lemma_encode_concat(text@, more@);
    }
    text.append(more);
}

impl Operator {
    /// The operator as it is written between its operands.
    pub fn symbol(self) -> (r: &'static str)
        ensures
            r.spec_bytes() == operator_text(self),
    {
        proof {
            reveal_strlit(" + ");
            reveal_strlit(" - ");
            reveal_strlit(" * ");
            reveal_strlit(" / ");
            reveal_strlit("^");
            is_ascii_chars_encode_utf8(" + "@);
            is_ascii_chars_encode_utf8(" - "@);
            is_ascii_chars_encode_utf8(" * "@);
            is_ascii_chars_encode_utf8(" / "@);
            is_ascii_chars_encode_utf8("^"@);
        }
        match self {
            Operator::Add => " + ",
            Operator::Subtract => " - ",
            Operator::Multiply => " * ",
            Operator::Divide => " / ",
            Operator::Exponent => "^",
        }
    }
}

impl Numeral {
    /// The numeral as it is written: the sign, then the digits.
    pub fn to_text(&self) -> (r: String)
        ensures
            encode_utf8(r@) == numeral_text(self@),
            self@.wf(),
    {
        let mut text = String::new();
        if self.is_negative() {
            proof {
                reveal_strlit("-");
                is_ascii_chars_encode_utf8("-"@);
            }
            push_text(&mut text, "-");
        }
        push_text(&mut text, self.literal());
        text
    }
}

impl Expr {
    /// The expression as it is written, without parentheses. Like every
    /// expression, it is made of numerals.
    pub fn to_text(&self) -> (r: String)
        ensures
            encode_utf8(r@) == expr_text(self@),
            self@.wf(),
        decreases self,
    {
        match self {
            Expr::Number(n) => n.to_text(),
            Expr::BinaryOp(op, left, right) => {
                let mut text = left.to_text();
                push_text(&mut text, op.symbol());
                push_text(&mut text, right.to_text().as_str());
                text
            },
        }
    }
}

impl Equation {
    /// The equation as it is written, ending in a check mark where `correct`
    /// is true and in a cross mark where it is false. Like every equation, it
    /// is made of numerals.
    pub fn to_text(&self, correct: bool) -> (r: String)
        ensures
            encode_utf8(r@) == equation_text(self@, correct),
            self@.wf(),
    {
        let mut text = self.expression().to_text();
        proof {
            reveal_strlit(" = ");
            reveal_strlit(" ");
            is_ascii_chars_encode_utf8(" = "@);
            is_ascii_chars_encode_utf8(" "@);
        }
        push_text(&mut text, " = ");
        push_text(&mut text, self.expected().to_text().as_str());
        push_text(&mut text, " ");
        push_text(&mut text, if correct { "\u{2714}" } else { "\u{274c}" });
        text
    }
}

} // verus!
