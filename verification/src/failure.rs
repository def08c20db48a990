//! How parsing fails.

use vstd::prelude::*;
use vstd::string::*;

verus! {

/// What the parser was looking for when it gave up.
#[derive(Clone, Copy, Debug, PartialEq, Eq, Structural)]
pub enum FailureKind {
    /// A numeral was expected, and no digit stood there.
    ExpectedDigit,
    /// A given character was expected: a parenthesis, or the `=` between
    /// the two sides.
    ExpectedChar,
}

/// What a [`ParseFailure`] stands for: what was missing, and the bytes of
/// the input from the place where it was missing.
pub struct FailureView {
    pub input: Seq<u8>,
    pub kind: FailureKind,
}

/// A failed parse: what was missing, and the input from the place where it
/// was missing.
#[derive(Debug, PartialEq, Eq)]
pub struct ParseFailure<'a> {
    pub input: &'a str,
    pub kind: FailureKind,
}

impl<'a> View for ParseFailure<'a> {
    type V = FailureView;

    open spec fn view(&self) -> FailureView {
        FailureView { input: self.input.spec_bytes(), kind: self.kind }
    }
}

/// The text that `nom` prints for a failure of its own, of the same kind at
/// the same place.
pub uninterp spec fn diagnostic(failure: FailureView) -> Seq<char>;

/// Why a text is no equation: a description of the failure, for people to
/// read.
#[derive(Debug, PartialEq, Eq)]
pub struct InvalidEquation(String);

impl View for InvalidEquation {
    type V = Seq<char>;

    closed spec fn view(&self) -> Seq<char> {
        self.0@
    }
}

/// `Display` of `nom::Err`, for an error of `nom`'s default error type that
/// `nom::error::Error::new` makes from the input at the place of the failure
/// and the code that `nom` has for its kind. The text depends on nothing
/// else.
#[verifier::external_body]
fn describe(failure: &ParseFailure) -> (text: String)
    ensures
        text@ == diagnostic(failure@),
{
    let code = match failure.kind {
        FailureKind::ExpectedDigit => nom::error::ErrorKind::Digit,
        FailureKind::ExpectedChar => nom::error::ErrorKind::Char,
    };
    nom::Err::Error(nom::error::Error::new(failure.input, code)).to_string()
}

impl InvalidEquation {
    /// The description of a failed parse.
    pub fn new(failure: &ParseFailure) -> (r: InvalidEquation)
        ensures
            r@ == diagnostic(failure@),
    {
        InvalidEquation(describe(failure))
    }

    /// The description.
    pub fn message(&self) -> (r: &str)
        ensures
            r@ == self@,
    {
        self.0.as_str()
    }
}

} // verus!
