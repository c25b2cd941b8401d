//! URLs, which the `url` crate parses and joins.
//!
//! A URL is opaque here. Contracts speak of it through three names: its
//! text, what joining a reference onto it gives, and what is left of it
//! without its query.

use vstd::prelude::*;

verus! {

/// `url::Url`, held as an opaque value.
#[verifier::external_type_specification]
#[verifier::external_body]
pub struct ExUrl(url::Url);

/// `url::ParseError`, held as an opaque value.
#[verifier::external_type_specification]
#[verifier::external_body]
pub struct ExParseError(url::ParseError);

/// The text of a URL: its serialization.
pub uninterp spec fn url_text(address: url::Url) -> Seq<char>;

/// The URL that `input` denotes when it is read relative to `base`, where
/// it denotes one.
pub uninterp spec fn url_joined(base: url::Url, input: Seq<char>) -> Option<url::Url>;

/// The URL without its query.
pub uninterp spec fn url_without_query(address: url::Url) -> url::Url;

/// `Url::as_str` returns the serialization that the URL stores: the contract
/// gives that text its name.
pub assume_specification[ url::Url::as_str ](address: &url::Url) -> (text: &str)
    ensures
        text@ == url_text(*address),
;

/// `Url::join` parses `input` with `base` as the base URL. The contract
/// claims only that the outcome, the URL or the failure, is determined by
/// the base and the input.
pub assume_specification[ url::Url::join ](base: &url::Url, input: &str) -> (r: Result<
    url::Url,
    url::ParseError,
>)
    ensures
        match r {
            Ok(joined) => url_joined(*base, input@) == Some(joined),
            Err(_) => url_joined(*base, input@) is None,
        },
;

/// `Url::set_query` with `None` clears the query of the URL. The contract
/// admits no other call, and claims only that what is left is determined by
/// the URL.
pub assume_specification[ url::Url::set_query ](address: &mut url::Url, query: Option<&str>)
    requires
        query is None,
    ensures
        *final(address) == url_without_query(*old(address)),
;

/// A reference that does not denote a URL relative to the base.
#[derive(Clone, Copy, Debug, PartialEq, Eq, Structural)]
pub struct BaseUrlJoinFailed {}

/// The text of the URL that `input` denotes relative to `base`, where it
/// denotes one.
pub open spec fn joined_text(base: url::Url, input: Seq<char>) -> Option<Seq<char>> {
    match url_joined(base, input) {
        Some(joined) => Some(url_text(joined)),
        None => None,
    }
}

/// The text of the URL that `input` denotes relative to `base`.
pub fn join_text(base: &url::Url, input: &str) -> (r: Result<String, BaseUrlJoinFailed>)
    ensures
        match r {
            Ok(text) => joined_text(*base, input@) == Some(text@),
            Err(_) => joined_text(*base, input@) is None,
        },
{
    match base.join(input) {
        Ok(joined) => Ok(joined.as_str().to_owned()),
        Err(_) => Err(BaseUrlJoinFailed {  }),
    }
}

/// The URL without its query.
pub fn without_query(address: url::Url) -> (r: url::Url)
    ensures
        r == url_without_query(address),
{
    let mut base = address;
    base.set_query(None);
    base
}

} // verus!
