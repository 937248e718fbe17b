//! Operations of `std` on text that the library's rules are stated with.

use vstd::prelude::*;
use vstd::string::StringExecFns;

verus! {

/// The texts of a list of strings.
pub open spec fn texts(list: Seq<String>) -> Seq<Seq<char>> {
    list.map_values(|s: String| s@)
}

/// The index of the first `c` in a text, or its length where it has none.
pub open spec fn first_index_of(text: Seq<char>, c: char) -> int
    decreases text.len(),
{
    if text.len() == 0 || text[0] == c {
        0
    } else {
        1 + first_index_of(text.drop_first(), c)
    }
}

/// The parts of a text between the occurrences of `sep`: one part more
/// than there are occurrences, so at least one, and empty parts where two
/// occurrences touch or one stands at either end.
pub open spec fn split_spec(text: Seq<char>, sep: char) -> Seq<Seq<char>>
    decreases text.len(),
{
    let i = first_index_of(text, sep);
    if 0 <= i < text.len() {
        seq![text.subrange(0, i)] + split_spec(text.subrange(i + 1, text.len() as int), sep)
    } else {
        seq![text]
    }
}

/// A text has at least one part.
pub proof fn lemma_split_nonempty(text: Seq<char>, sep: char)
    ensures
        split_spec(text, sep).len() >= 1,
{
}

/// The lower-case form of a text, as `str::to_lowercase` gives it.
pub uninterp spec fn str_lowercase(text: Seq<char>) -> Seq<char>;

/// Calls `str::to_lowercase`. Believed of it: the result depends on the
/// text alone.
#[verifier::external_body]
pub(crate) fn to_lowercase(text: &str) -> (lower: String)
    ensures
        lower@ == str_lowercase(text@),
{
    text.to_lowercase()
}

/// Calls `str::split` with a character as the pattern. Believed of it: the
/// parts are the substrings between the occurrences of the character, in
/// order, empty ones included.
#[verifier::external_body]
pub(crate) fn split(text: &str, sep: char) -> (parts: Vec<String>)
    ensures
        texts(parts@) == split_spec(text@, sep),
{
    text.split(sep).map(|part| part.to_owned()).collect()
}

/// Whether two texts are equal.
pub(crate) fn str_eq(a: &str, b: &str) -> (r: bool)
    ensures
        r == (a@ == b@),
{
    String::from_str(a) == String::from_str(b)
}

} // verus!
