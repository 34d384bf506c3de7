//! Parsing the address of the cache.
use vstd::prelude::*;

verus! {

/// The error that `url::Url::parse` reports, as memcache re-exports it.
#[verifier::external_type_specification]
#[verifier::external_body]
pub struct ExUrlParseError(memcache::UrlParseError);

/// The normalised text of the URL that `s` denotes, or `None` where `s` is
/// not an absolute URL.
pub uninterp spec fn parsed_url(s: Seq<char>) -> Option<Seq<char>>;

/// Relies on `url::Url::parse` (re-exported as `memcache::Url`) for the
/// validation, and on `String::from(Url)` for the serialised text.
#[verifier::external_body]
pub(crate) fn parse_url(s: &str) -> (r: Result<String, memcache::UrlParseError>)
    ensures
        match r {
            Ok(u) => parsed_url(s@) == Some(u@),
            Err(_) => parsed_url(s@) is None,
        },
{
    memcache::Url::parse(s).map(String::from)
}

} // verus!
