//! The data an equation is made of: numerals, operators, expression trees
//! and equations, each with the mathematical value that contracts speak of.

use vstd::prelude::*;
use vstd::string::*;
use vstd::utf8::*;
use crate::tokens::literal_len;

verus! {

/// The five infix operators.
#[derive(Clone, Copy, Debug, PartialEq, Eq, Structural)]
pub enum Operator {
    Add,
    Subtract,
    Multiply,
    Divide,
    Exponent,
}

/// What a [`Numeral`] stands for: a sign and the digits as they were written.
pub struct NumeralView {
    pub negative: bool,
    pub literal: Seq<u8>,
}

impl NumeralView {
    /// The digits are a numeral: digits, or digits, a point and digits.
    pub open spec fn wf(self) -> bool {
        self.literal.len() > 0 && literal_len(self.literal) == self.literal.len()
    }
}

/// A decimal numeral, kept exactly as written: whether a minus sign stood
/// before it, and its digits, with at most one point between them.
#[derive(Debug, PartialEq, Eq)]
pub struct Numeral {
    negative: bool,
    literal: String,
}

impl View for Numeral {
    type V = NumeralView;

    closed spec fn view(&self) -> NumeralView {
        NumeralView { negative: self.negative, literal: encode_utf8(self.literal@) }
    }
}

impl Numeral {
    /// What every numeral holds: its digits are a numeral.
    #[verifier::type_invariant]
    spec fn is_numeral(&self) -> bool {
        self@.wf()
    }

    /// A numeral with the given sign and digits.
    pub(crate) fn new(negative: bool, literal: &str) -> (r: Numeral)
        requires
            (NumeralView { negative, literal: literal.spec_bytes() }).wf(),
        ensures
            r@ == (NumeralView { negative, literal: literal.spec_bytes() }),
    {
        Numeral { negative, literal: literal.to_owned() }
    }

    /// Whether a minus sign stood before the digits.
    pub fn is_negative(&self) -> (r: bool)
        ensures
            r == self@.negative,
    {
        self.negative
    }

    /// The digits as written, without the sign: digits, or digits, a point
    /// and digits.
    pub fn literal(&self) -> (r: &str)
        ensures
            r.spec_bytes() == self@.literal,
            self@.wf(),
    {
        proof {
            use_type_invariant(self);
        }
        self.literal.as_str()
    }
}

/// What an [`Expr`] stands for.
pub enum ExprView {
    Number(NumeralView),
    BinaryOp(Operator, Box<ExprView>, Box<ExprView>),
}

impl ExprView {
    /// Every numeral in the tree is one.
    pub open spec fn wf(self) -> bool
        decreases self,
    {
        match self {
            ExprView::Number(n) => n.wf(),
            ExprView::BinaryOp(_, left, right) => left.wf() && right.wf(),
        }
    }
}

/// An expression tree: a numeral, or an operator over two sub-expressions.
#[derive(Debug, PartialEq, Eq)]
pub enum Expr {
    Number(Numeral),
    BinaryOp(Operator, Box<Expr>, Box<Expr>),
}

impl Expr {
    /// The tree that this expression stands for.
    pub open spec fn model(self) -> ExprView
        decreases self,
    {
        match self {
            Expr::Number(n) => ExprView::Number(n@),
            Expr::BinaryOp(op, left, right) => ExprView::BinaryOp(
                op,
                Box::new((*left).model()),
                Box::new((*right).model()),
            ),
        }
    }
}

impl View for Expr {
    type V = ExprView;

    open spec fn view(&self) -> ExprView {
        self.model()
    }
}

/// What an [`Equation`] stands for.
pub struct EquationView {
    pub expression: ExprView,
    pub expected: NumeralView,
}

impl EquationView {
    /// Every numeral on both sides is one.
    pub open spec fn wf(self) -> bool {
        self.expression.wf() && self.expected.wf()
    }
}

/// An expression and the value it is claimed to have.
#[derive(Debug, PartialEq, Eq)]
pub struct Equation {
    expression: Expr,
    expected: Numeral,
}

impl View for Equation {
    type V = EquationView;

    closed spec fn view(&self) -> EquationView {
        EquationView { expression: self.expression@, expected: self.expected@ }
    }
}

impl Equation {
    /// The equation of the given left-hand expression and right-hand value.
    pub(crate) fn new(expression: Expr, expected: Numeral) -> (r: Equation)
        ensures
            r@ == (EquationView { expression: expression@, expected: expected@ }),
    {
        Equation { expression, expected }
    }

    /// The left-hand side.
    pub fn expression(&self) -> (r: &Expr)
        ensures
            r@ == self@.expression,
    {
        &self.expression
    }

    /// The right-hand side.
    pub fn expected(&self) -> (r: &Numeral)
        ensures
            r@ == self@.expected,
    {
        &self.expected
    }
}

} // verus!
