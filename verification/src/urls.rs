//! URLs of the `url` crate, seen through their serialization.

use vstd::prelude::*;
use crate::text::first_index_of;
use url::ParseError;
use url::Url;

verus! {

/// `url::Url`, a parsed URL. Nothing of its inside is known here.
#[verifier::external_type_specification]
#[verifier::external_body]
pub struct ExUrl(Url);

/// `url::ParseError`, the reason why a text is no URL. It is only passed
/// on or dropped.
#[verifier::external_type_specification]
#[verifier::external_body]
pub struct ExParseError(ParseError);

/// The serialization of a URL: the text that `Url::as_str` returns. A `Url`
/// compares, orders, hashes and prints as this text, and nothing else of
/// it is spoken of here.
pub uninterp spec fn url_text(u: Url) -> Seq<char>;

/// The serialization of the URL that `Url::parse` reads from a text, or
/// `None` where it reads none.
pub uninterp spec fn url_parse_text(input: Seq<char>) -> Option<Seq<char>>;

/// The serialization of the URL that `Url::join` resolves a reference to,
/// against the base with the given serialization, or `None` where it fails.
pub uninterp spec fn url_join_text(base: Seq<char>, input: Seq<char>) -> Option<Seq<char>>;

/// The scheme of a serialized URL: what stands before its first `:`.
pub open spec fn scheme_of(text: Seq<char>) -> Seq<char> {
    text.subrange(0, first_index_of(text, ':'))
}

/// The serializations of a list of URLs.
pub open spec fn url_texts(urls: Seq<Url>) -> Seq<Seq<char>> {
    urls.map_values(|u: Url| url_text(u))
}

/// `Url::parse` reads an absolute URL from a text, or fails. Believed of
/// it: whether it succeeds, and the serialization of what it returns,
/// depend on the text alone.
pub assume_specification[ Url::parse ](input: &str) -> (r: Result<Url, ParseError>)
    ensures
        match r {
            Ok(u) => url_parse_text(input@) == Some(url_text(u)),
            Err(_) => url_parse_text(input@) is None,
        },
;

/// `Url::join` reads a URL from a text with this URL as the base, or fails.
/// Believed of it: whether it succeeds, and the serialization of what it
/// returns, depend on the base's serialization and the text alone.
pub assume_specification[ Url::join ](base: &Url, input: &str) -> (r: Result<Url, ParseError>)
    ensures
        match r {
            Ok(u) => url_join_text(url_text(*base), input@) == Some(url_text(u)),
            Err(_) => url_join_text(url_text(*base), input@) is None,
        },
;

/// `Url::scheme` returns the part of the serialization before the `:` that
/// ends the scheme; a scheme holds no `:` itself.
pub assume_specification<'a>[ Url::scheme ](u: &'a Url) -> (s: &'a str)
    ensures
        s@ == scheme_of(url_text(*u)),
;

/// Calls `Url::eq`. Believed of it: two URLs are equal exactly if their
/// serializations are.
#[verifier::external_body]
pub(crate) fn urls_equal(a: &Url, b: &Url) -> (r: bool)
    ensures
        r == (url_text(*a) == url_text(*b)),
{
    a == b
}

/// Calls `Url::clone`. Believed of it: the copy has the same
/// serialization.
#[verifier::external_body]
pub(crate) fn clone_url(u: &Url) -> (r: Url)
    ensures
        url_text(r) == url_text(*u),
{
    u.clone()
}

/// A copy of a list of URLs, with the same serializations in the same
/// order.
pub(crate) fn clone_urls(urls: &Vec<Url>) -> (r: Vec<Url>)
    ensures
        url_texts(r@) == url_texts(urls@),
{
    let mut r: Vec<Url> = Vec::new();
    let mut i: usize = 0;
    while i < urls.len()
        invariant
            i <= urls.len(),
            r@.len() == i,
            forall|j: int| 0 <= j < i ==> url_text(#[trigger] r@[j]) == url_text(urls@[j]),
        decreases urls.len() - i,
    {
        r.push(clone_url(&urls[i]));
        i = i + 1;
    }
    assert(url_texts(r@) =~= url_texts(urls@));
    r
}

} // verus!
