//! Addresses of queries to the upstream transit data service.

use vstd::prelude::*;

verus! {

#[derive(Debug, PartialEq, Eq, Structural)]
pub enum UrlError {
    /// The service's base address, or the query path joined to it, is not a URL.
    Invalid,
}

/// The query parameter that carries the service's key.
pub open spec fn api_key_parameter() -> Seq<char> {
    "api-key"@
}

/// The URL that `url` makes of a path joined to a base address; `None` when the base
/// does not parse or the path cannot be joined to it.
pub uninterp spec fn url_joined(base: Seq<char>, path: Seq<char>) -> Option<Seq<char>>;

/// The URL that `url` makes of a URL with one more query pair; `None` when the URL does
/// not parse.
pub uninterp spec fn url_with_pair(url: Seq<char>, name: Seq<char>, value: Seq<char>) -> Option<
    Seq<char>,
>;

/// Relies on `url::Url::parse` and `Url::join`: the result depends on the two texts
/// alone.
#[verifier::external_body]
fn join_url(base: &str, path: &str) -> (r: Option<String>)
    ensures
        match r {
            Some(u) => url_joined(base@, path@) == Some(u@),
            None => url_joined(base@, path@) is None,
        },
{
    url::Url::parse(base).ok()?.join(path).ok().map(|u| u.to_string())
}

/// Relies on `url::Url::parse` and `append_pair` on `Url::query_pairs_mut`: the result
/// depends on the three texts alone.
#[verifier::external_body]
fn append_query_pair(url: &str, name: &str, value: &str) -> (r: Option<String>)
    ensures
        match r {
            Some(u) => url_with_pair(url@, name@, value@) == Some(u@),
            None => url_with_pair(url@, name@, value@) is None,
        },
{
    let mut parsed = url::Url::parse(url).ok()?;
    parsed.query_pairs_mut().append_pair(name, value);
    Some(parsed.to_string())
}

/// The address of a query: the path joined to the service's base address, and then the
/// key added as the `api-key` query parameter.
pub open spec fn upstream_url(base: Seq<char>, path: Seq<char>, key: Seq<char>) -> Option<
    Seq<char>,
> {
    match url_joined(base, path) {
        Some(joined) => url_with_pair(joined, api_key_parameter(), key),
        None => None,
    }
}

/// The address to fetch for a query path: the path joined to the service's base
/// address, with the API key added as the `api-key` query parameter.
pub fn request_url(base: &str, path: &str, api_key: &str) -> (r: Result<String, UrlError>)
    ensures
        upstream_url(base@, path@, api_key@) is None <==> r == Err::<String, UrlError>(
            UrlError::Invalid,
        ),
        r is Ok ==> upstream_url(base@, path@, api_key@) == Some(r->Ok_0@),
{
    match join_url(base, path) {
        Some(joined) => match append_query_pair(joined.as_str(), "api-key", api_key) {
            Some(u) => Ok(u),
            None => Err(UrlError::Invalid),
        },
        None => Err(UrlError::Invalid),
    }
}

} // verus!
