//! The lexical layer: blanks, digits and single characters at the front of
//! the input, and the cursor that moves past them.
//!
//! The input is a string slice; what the functions here say about it is
//! stated over its UTF-8 bytes. Every byte the grammar knows is ASCII, so a
//! cursor that has only moved past such bytes is always on a character
//! boundary.

use vstd::prelude::*;
use vstd::string::*;
use vstd::utf8::*;

verus! {

/// The tab character.
pub const TAB: u8 = 0x09;

/// The space character.
pub const SPACE: u8 = 0x20;

/// `(`
pub const OPEN: u8 = 0x28;

/// `)`
pub const CLOSE: u8 = 0x29;

/// `*`
pub const STAR: u8 = 0x2a;

/// `+`
pub const PLUS: u8 = 0x2b;

/// `-`
pub const MINUS: u8 = 0x2d;

/// `.`
pub const POINT: u8 = 0x2e;

/// `/`
pub const SLASH: u8 = 0x2f;

/// `=`
pub const EQUALS: u8 = 0x3d;

/// `^`
pub const CARET: u8 = 0x5e;

/// A space or a tab.
pub open spec fn is_blank(b: u8) -> bool {
    b == SPACE || b == TAB
}

/// An ASCII decimal digit.
pub open spec fn is_digit(b: u8) -> bool {
    0x30 <= b <= 0x39
}

/// Whether `s` begins with the byte `b`.
pub open spec fn starts_with(s: Seq<u8>, b: u8) -> bool {
    s.len() > 0 && s[0] == b
}

/// The number of blanks at the front of `s`.
pub open spec fn blank_run(s: Seq<u8>) -> nat
    decreases s.len(),
{
    if s.len() > 0 && is_blank(s[0]) {
        1 + blank_run(s.skip(1))
    } else {
        0
    }
}

/// The number of digits at the front of `s`.
pub open spec fn digit_run(s: Seq<u8>) -> nat
    decreases s.len(),
{
    if s.len() > 0 && is_digit(s[0]) {
        1 + digit_run(s.skip(1))
    } else {
        0
    }
}

/// The length of the unsigned numeral at the front of `s`: digits, a point
/// and digits where all three are there, else digits alone; 0 where no
/// digit stands first.
pub open spec fn literal_len(s: Seq<u8>) -> nat {
    let whole = digit_run(s);
    let fraction = digit_run(s.skip(whole as int + 1));
    if whole > 0 && starts_with(s.skip(whole as int), POINT) && fraction > 0 {
        whole + 1 + fraction
    } else {
        whole
    }
}

/// `s` without the blanks at its front.
pub open spec fn skip_blank(s: Seq<u8>) -> Seq<u8> {
    s.skip(blank_run(s) as int)
}

/// A run of blanks lies inside the input, holds only blanks, and ends at a
/// byte that is not one.
pub proof fn lemma_blank_run(s: Seq<u8>)
    ensures
        blank_run(s) <= s.len(),
        forall|i: int| 0 <= i < blank_run(s) ==> is_blank(#[trigger] s[i]),
        blank_run(s) < s.len() ==> !is_blank(s[blank_run(s) as int]),
    decreases s.len(),
{
    if s.len() > 0 && is_blank(s[0]) {
        let t = s.skip(1);
        lemma_blank_run(t);
        assert forall|i: int| 0 <= i < blank_run(s) implies is_blank(#[trigger] s[i]) by {
            if i > 0 {
                assert(s[i] == t[i - 1]);
            }
        }
    }
}

/// A run of digits lies inside the input, holds only digits, and ends at a
/// byte that is not one.
pub proof fn lemma_digit_run(s: Seq<u8>)
    ensures
        digit_run(s) <= s.len(),
        forall|i: int| 0 <= i < digit_run(s) ==> is_digit(#[trigger] s[i]),
        digit_run(s) < s.len() ==> !is_digit(s[digit_run(s) as int]),
    decreases s.len(),
{
    if s.len() > 0 && is_digit(s[0]) {
        let t = s.skip(1);
        lemma_digit_run(t);
        assert forall|i: int| 0 <= i < digit_run(s) implies is_digit(#[trigger] s[i]) by {
            if i > 0 {
                assert(s[i] == t[i - 1]);
            }
        }
    }
}

/// Whether `rest` is an end of `s`.
pub open spec fn is_suffix(rest: Seq<u8>, s: Seq<u8>) -> bool {
    rest.len() <= s.len() && rest == s.skip(s.len() - rest.len())
}

/// The whole input is an end of itself.
pub proof fn lemma_suffix_whole(s: Seq<u8>)
    ensures
        is_suffix(s, s),
{
    assert(s.skip(0) == s);
}

/// An end of an end is an end.
pub proof fn lemma_suffix_of_suffix(a: Seq<u8>, b: Seq<u8>, c: Seq<u8>)
    requires
        is_suffix(a, b),
        is_suffix(b, c),
    ensures
        is_suffix(a, c),
{
    assert(a == c.skip(c.len() - a.len()));
}

/// The run of blanks is the only length up to which all bytes are blanks
/// and at which a byte that is not one, or the end, stands.
pub proof fn lemma_blank_run_unique(s: Seq<u8>, n: int)
    requires
        0 <= n <= s.len(),
        forall|i: int| 0 <= i < n ==> is_blank(#[trigger] s[i]),
        n < s.len() ==> !is_blank(s[n]),
    ensures
        blank_run(s) == n,
    decreases n,
{
    if n > 0 {
        let t = s.skip(1);
        lemma_blank_run_unique(t, n - 1);
    }
}

/// The run of digits is the only length up to which all bytes are digits
/// and at which a byte that is not one, or the end, stands.
pub proof fn lemma_digit_run_unique(s: Seq<u8>, n: int)
    requires
        0 <= n <= s.len(),
        forall|i: int| 0 <= i < n ==> is_digit(#[trigger] s[i]),
        n < s.len() ==> !is_digit(s[n]),
    ensures
        digit_run(s) == n,
    decreases n,
{
    if n > 0 {
        let t = s.skip(1);
        lemma_digit_run_unique(t, n - 1);
    }
}

/// Nothing is left to skip once the blanks are skipped.
pub proof fn lemma_skip_blank_twice(s: Seq<u8>)
    ensures
        blank_run(skip_blank(s)) == 0,
        skip_blank(skip_blank(s)) == skip_blank(s),
        skip_blank(s).len() <= s.len(),
{
    lemma_blank_run(s);
}

/// The numeral at the front of the input, taken by itself, is a numeral
/// and nothing more.
pub proof fn lemma_literal_alone(s: Seq<u8>)
    ensures
        literal_len(s) <= s.len(),
        literal_len(s.take(literal_len(s) as int)) == literal_len(s),
        forall|i: int| 0 <= i < literal_len(s) ==> is_digit(#[trigger] s[i]) || s[i] == POINT,
{
    let whole = digit_run(s) as int;
    let after = s.skip(whole + 1);
    let fraction = digit_run(after) as int;
    let n = literal_len(s) as int;
    let t = s.take(n);
    lemma_digit_run(s);
    lemma_digit_run(after);
    if whole > 0 {
        lemma_digit_run_unique(t, whole);
        if n > whole {
            let after_t = t.skip(whole + 1);
            assert forall|i: int| 0 <= i < fraction implies is_digit(#[trigger] after_t[i]) by {
                assert(after_t[i] == after[i]);
            }
            lemma_digit_run_unique(after_t, fraction);
            assert forall|i: int| 0 <= i < n implies is_digit(#[trigger] s[i]) || s[i]
                == POINT by {
                if i > whole {
                    assert(s[i] == after[i - whole - 1]);
                }
            }
        }
    }
}

/// In well-formed UTF-8, a position that only ASCII bytes precede is a
/// character boundary.
pub proof fn lemma_ascii_prefix_boundary(bytes: Seq<u8>, n: int)
    requires
        valid_utf8(bytes),
        0 <= n <= bytes.len(),
        forall|i: int| 0 <= i < n ==> #[trigger] bytes[i] < 0x80,
    ensures
        is_char_boundary(bytes, n),
    decreases n,
{
    if n > 0 {
        let rest = pop_first_scalar(bytes);
        lemma_ascii_prefix_boundary(rest, n - 1);
    }
}

/// `nom::character::complete::space0` on a byte slice: it never fails, and
/// it matches the spaces and tabs at the front of the input. The result is
/// the number of bytes matched.
#[verifier::external_body]
fn space0(input: &[u8]) -> (r: Option<usize>)
    ensures
        match r {
            Some(n) => n == blank_run(input@),
            None => false,
        },
{
    match nom::character::complete::space0::<&[u8], nom::error::Error<&[u8]>>(input) {
        Ok((_, matched)) => Some(matched.len()),
        Err(_) => None,
    }
}

/// `nom::character::complete::digit1` on a byte slice: it matches the ASCII
/// digits at the front of the input, and fails where there is none. The
/// result is the number of bytes matched.
#[verifier::external_body]
fn digit1(input: &[u8]) -> (r: Option<usize>)
    ensures
        match r {
            Some(n) => n > 0 && n == digit_run(input@),
            None => digit_run(input@) == 0,
        },
{
    match nom::character::complete::digit1::<&[u8], nom::error::Error<&[u8]>>(input) {
        Ok((_, matched)) => Some(matched.len()),
        Err(_) => None,
    }
}

/// `nom::character::complete::char` on a byte slice, for an ASCII character
/// given as its byte: it succeeds where the first byte of the input is that
/// byte, and then consumes exactly that byte.
#[verifier::external_body]
fn character(input: &[u8], c: u8) -> (r: bool)
    requires
        c < 0x80,
    ensures
        r == starts_with(input@, c),
{
    nom::character::complete::char::<&[u8], nom::error::Error<&[u8]>>(char::from(c))(input).is_ok()
}

/// Splits the input after its first `n` bytes, all of them ASCII.
pub(crate) fn split_ascii<'a>(input: &'a str, n: usize) -> (r: (&'a str, &'a str))
    requires
        n <= input.spec_bytes().len(),
        forall|i: int| 0 <= i < n ==> #[trigger] input.spec_bytes()[i] < 0x80,
    ensures
        r.0.spec_bytes() == input.spec_bytes().take(n as int),
        r.1.spec_bytes() == input.spec_bytes().skip(n as int),
{
    proof {
        encode_utf8_valid_utf8(input@);
        lemma_ascii_prefix_boundary(input.spec_bytes(), n as int);
    }
    input.split_at(n)
}

/// Moves past the blanks at the front of the input.
pub(crate) fn skip_blanks<'a>(input: &'a str) -> (rest: &'a str)
    ensures
        rest.spec_bytes() == skip_blank(input.spec_bytes()),
{
    proof {
        lemma_blank_run(input.spec_bytes());
    }
    match space0(input.as_bytes()) {
        Some(n) => split_ascii(input, n).1,
        None => input,
    }
}

/// Moves past the byte `c` where the input begins with it.
pub(crate) fn take_char<'a>(input: &'a str, c: u8) -> (r: Option<&'a str>)
    requires
        c < 0x80,
    ensures
        match r {
            Some(rest) => starts_with(input.spec_bytes(), c) && rest.spec_bytes()
                == input.spec_bytes().skip(1),
            None => !starts_with(input.spec_bytes(), c),
        },
{
    if character(input.as_bytes(), c) {
        Some(split_ascii(input, 1).1)
    } else {
        None
    }
}

/// Splits off the digits at the front of the input, where there is one.
pub(crate) fn take_digits<'a>(input: &'a str) -> (r: Option<(&'a str, &'a str)>)
    ensures
        match r {
            Some((digits, rest)) => {
                &&& digit_run(input.spec_bytes()) > 0
                &&& digits.spec_bytes() == input.spec_bytes().take(
                    digit_run(input.spec_bytes()) as int,
                )
                &&& rest.spec_bytes() == input.spec_bytes().skip(
                    digit_run(input.spec_bytes()) as int,
                )
            },
            None => digit_run(input.spec_bytes()) == 0,
        },
{
    proof {
        lemma_digit_run(input.spec_bytes());
    }
    match digit1(input.as_bytes()) {
        Some(n) => Some(split_ascii(input, n)),
        None => None,
    }
}

} // verus!
