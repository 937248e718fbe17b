//! Three-valued logic for predicates that cannot always be decided.

use vstd::prelude::*;

verus! {

/// A truth value that may be unknown.
#[derive(Clone, Copy, Debug, PartialEq, Eq, Structural)]
pub enum Tribool {
    True,
    False,
    Indeterminate,
}

/// The ASCII lower-case form of a character; other characters are unchanged.
pub open spec fn ascii_lower(c: char) -> char {
    if 'A' <= c && c <= 'Z' {
        ((c as u8) + 32u8) as char
    } else {
        c
    }
}

/// Equality of two texts up to ASCII case.
pub open spec fn eq_ignore_ascii_case(a: Seq<char>, b: Seq<char>) -> bool {
    &&& a.len() == b.len()
    &&& forall|i: int| 0 <= i < a.len() ==> ascii_lower(#[trigger] a[i]) == ascii_lower(b[i])
}

/// The truth value that a text spells, if any: `true`, `false`, and
/// `indeterminate`, `unknown` or `null` for the unknown value, in any ASCII
/// case.
pub open spec fn spec_parse(text: Seq<char>) -> Option<Tribool> {
    if eq_ignore_ascii_case(text, "true"@) {
        Some(Tribool::True)
    } else if eq_ignore_ascii_case(text, "false"@) {
        Some(Tribool::False)
    } else if eq_ignore_ascii_case(text, "indeterminate"@) || eq_ignore_ascii_case(
        text,
        "unknown"@,
    ) || eq_ignore_ascii_case(text, "null"@) {
        Some(Tribool::Indeterminate)
    } else {
        None
    }
}

/// Calls `tribool::Tribool::from(bool)`: the result is `True` for `true` and
/// `False` for `false`, never `Indeterminate`.
#[verifier::external_body]
fn crate_from_bool(value: bool) -> (t: Tribool)
    ensures
        t == (if value { Tribool::True } else { Tribool::False }),
{
    match tribool::Tribool::from(value) {
        tribool::Tribool::True => Tribool::True,
        tribool::Tribool::False => Tribool::False,
        tribool::Tribool::Indeterminate => Tribool::Indeterminate,
    }
}

/// Calls `<tribool::Tribool as FromStr>::from_str`: it compares the text,
/// ignoring ASCII case, with `true`, `false`, `indeterminate`, `unknown` and
/// `null`, and fails on any other text.
#[verifier::external_body]
fn crate_from_str(text: &str) -> (t: Option<Tribool>)
    ensures
        t == spec_parse(text@),
{
    match <tribool::Tribool as std::str::FromStr>::from_str(text) {
        Ok(tribool::Tribool::True) => Some(Tribool::True),
        Ok(tribool::Tribool::False) => Some(Tribool::False),
        Ok(tribool::Tribool::Indeterminate) => Some(Tribool::Indeterminate),
        Err(_) => None,
    }
}

/// Calls `tribool::Tribool::default()`, which is `False`.
#[verifier::external_body]
fn crate_default() -> (t: Tribool)
    ensures
        t == Tribool::False,
{
    match <tribool::Tribool as Default>::default() {
        tribool::Tribool::True => Tribool::True,
        tribool::Tribool::False => Tribool::False,
        tribool::Tribool::Indeterminate => Tribool::Indeterminate,
    }
}

impl Default for Tribool {
    fn default() -> (t: Tribool)
        ensures
            t == Tribool::False,
    {
        crate_default()
    }
}

impl Tribool {
    /// The definite truth value of a boolean.
    pub fn from_bool(value: bool) -> (t: Tribool)
        ensures
            t == (if value { Tribool::True } else { Tribool::False }),
    {
        crate_from_bool(value)
    }

    /// Reads a truth value from its spelling.
    pub fn parse(text: &str) -> (t: Option<Tribool>)
        ensures
            t == spec_parse(text@),
    {
        crate_from_str(text)
    }

    /// The boolean behind a definite value; `None` for `Indeterminate`.
    pub fn to_option(self) -> (b: Option<bool>)
        ensures
            b == match self {
                Tribool::True => Some(true),
                Tribool::False => Some(false),
                Tribool::Indeterminate => None::<bool>,
            },
    {
        match self {
            Tribool::True => Some(true),
            Tribool::False => Some(false),
            Tribool::Indeterminate => None,
        }
    }
}

} // verus!
