//! URLs: parsing a page address and resolving links against it.
use vstd::prelude::*;

verus! {

/// The serialization of the URL that `url::Url::parse` makes of `input`, or `None`
/// where it refuses `input`.
pub uninterp spec fn parsed_url(input: Seq<char>) -> Option<Seq<char>>;

/// The serialization of `input` resolved against the URL `base` by
/// `url::Url::join`, or `None` where `base` does not parse or the join fails.
pub uninterp spec fn joined_url(base: Seq<char>, input: Seq<char>) -> Option<Seq<char>>;

/// The view of an optional string.
pub open spec fn opt_view(o: Option<String>) -> Option<Seq<char>> {
    match o {
        Some(s) => Some(s@),
        None => None,
    }
}

/// `url::Url::parse`, the URL given back as its serialization. What the URL
/// standard makes of `input` is named `parsed_url`, not restated.
#[verifier::external_body]
pub(crate) fn parse_url(input: &str) -> (r: Option<String>)
    ensures
        opt_view(r) == parsed_url(input@),
{
    match url::Url::parse(input) {
        Ok(u) => Some(String::from(u)),
        Err(_) => None,
    }
}

/// `url::Url::join` of `input` on the URL `base` (parsed with `url::Url::parse`),
/// given back as its serialization. The result is named `joined_url`.
#[verifier::external_body]
pub(crate) fn join_url(base: &str, input: &str) -> (r: Option<String>)
    ensures
        opt_view(r) == joined_url(base@, input@),
{
    match url::Url::parse(base) {
        Ok(b) => match b.join(input) {
            Ok(u) => Some(String::from(u)),
            Err(_) => None,
        },
        Err(_) => None,
    }
}

} // verus!
