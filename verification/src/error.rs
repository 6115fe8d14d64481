//! The errors of benchmark setup and execution, and their messages.
use vstd::prelude::*;
use vstd::string::*;

verus! {

/// What can go wrong while configuring or running a benchmark.
#[derive(Debug, Clone, PartialEq, Eq)]
pub enum Error {
    /// A duration that is not written like `10s`, `1m`, `500ms` or a number of seconds.
    InvalidDuration(String),
    /// A header that is not written as `Key: Value`.
    InvalidHeader(String),
    /// A URL that could not be parsed.
    InvalidUrl(String),
    /// No URL was given where one is required.
    MissingUrl,
    /// Conflicting or missing builder options.
    InvalidConfig(String),
    /// An error of the HTTP client, by its message.
    Http(String),
    /// A request exceeded the configured timeout.
    Timeout,
    /// An I/O error, by its message.
    Io(String),
}

/// The message text of each error.
pub open spec fn error_message(e: Error) -> Seq<char> {
    match e {
        Error::InvalidDuration(s) => "Invalid duration: '"@ + s@ + "'. Use format like 10s, 1m, 500ms"@,
        Error::InvalidHeader(s) => "Invalid header: '"@ + s@ + "'. Use format 'Key: Value'"@,
        Error::InvalidUrl(s) => "Invalid URL: "@ + s@,
        Error::MissingUrl => "URL is required"@,
        Error::InvalidConfig(s) => "Invalid configuration: "@ + s@,
        Error::Http(s) => "HTTP error: "@ + s@,
        Error::Timeout => "Request timeout"@,
        Error::Io(s) => "IO error: "@ + s@,
    }
}

fn framed(before: &str, middle: &String, after: &str) -> (m: String)
    ensures
        m@ == before@ + middle@ + after@,
{
    let mut m = String::from_str(before);
    m.append(middle.as_str());
    m.append(after);
    m
}

impl Error {
    /// The human-readable message of this error.
    pub fn message(&self) -> (m: String)
        ensures
            m@ == error_message(*self),
    {
        match self {
            Error::InvalidDuration(s) => framed(
                "Invalid duration: '",
                s,
                "'. Use format like 10s, 1m, 500ms",
            ),
            Error::InvalidHeader(s) => framed("Invalid header: '", s, "'. Use format 'Key: Value'"),
            Error::InvalidUrl(s) => {
                let m = framed("Invalid URL: ", s, "");
                proof {
                    reveal_strlit("");
                    assert(m@ =~= "Invalid URL: "@ + s@);
                }
                m
            },
            Error::MissingUrl => String::from_str("URL is required"),
            Error::InvalidConfig(s) => {
                let m = framed("Invalid configuration: ", s, "");
                proof {
                    reveal_strlit("");
                    assert(m@ =~= "Invalid configuration: "@ + s@);
                }
                m
            },
            Error::Http(s) => {
                let m = framed("HTTP error: ", s, "");
                proof {
                    reveal_strlit("");
                    assert(m@ =~= "HTTP error: "@ + s@);
                }
                m
            },
            Error::Timeout => String::from_str("Request timeout"),
            Error::Io(s) => {
                let m = framed("IO error: ", s, "");
                proof {
                    reveal_strlit("");
                    assert(m@ =~= "IO error: "@ + s@);
                }
                m
            },
        }
    }
}

} // verus!
