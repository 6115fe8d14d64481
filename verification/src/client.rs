//! What the HTTP client decides before and after it talks to the network:
//! where a request goes and whether its response body is read.
use hyper::Uri;
use vstd::prelude::*;

use crate::config::HttpMethod;
use crate::error::Error;

verus! {

#[verifier::external_type_specification]
#[verifier::external_body]
pub struct ExUri(Uri);

/// The message with which `Uri::from_str` rejects `text`, or `None` when it
/// accepts it.
pub uninterp spec fn uri_rejection(text: Seq<char>) -> Option<Seq<char>>;

/// `<Uri as FromStr>::from_str`, with a rejection turned into its message.
#[verifier::external_body]
fn parse_uri(text: &str) -> (r: Result<Uri, String>)
    ensures
        match r {
            Ok(_) => uri_rejection(text@) is None,
            Err(m) => uri_rejection(text@) == Some(m@),
        },
{
    match text.parse::<Uri>() {
        Ok(uri) => Ok(uri),
        Err(e) => Err(e.to_string()),
    }
}

/// What a URL's parse comes to: the URI, or an invalid-URL error with the
/// parser's message.
pub fn url_result(parsed: Result<Uri, String>) -> (r: Result<Uri, Error>)
    ensures
        match parsed {
            Ok(uri) => r == Ok::<Uri, Error>(uri),
            Err(m) => r == Err::<Uri, Error>(Error::InvalidUrl(m)),
        },
{
    match parsed {
        Ok(uri) => Ok(uri),
        Err(message) => Err(Error::InvalidUrl(message)),
    }
}

/// The URI that a request goes to; a URL that does not parse is an invalid
/// URL, reported with the parser's message.
pub fn target_uri(url: &String) -> (r: Result<Uri, Error>)
    ensures
        match r {
            Ok(_) => uri_rejection(url@) is None,
            Err(e) => uri_rejection(url@) matches Some(m) && (e matches Error::InvalidUrl(s) && s@
                == m),
        },
{
    url_result(parse_uri(url.as_str()))
}

impl HttpMethod {
    /// Whether the response body is read and counted: for every method but `HEAD`.
    pub fn reads_body(&self) -> (b: bool)
        ensures
            b == (*self != HttpMethod::Head),
    {
        match self {
            HttpMethod::Head => false,
            _ => true,
        }
    }
}

} // verus!
