//! Requests and responses as the proxy sees them.

use hyper::header::HeaderMap;
use hyper::http::uri::InvalidUri;
use vstd::prelude::*;

verus! {

/// What an optional string holds.
pub open spec fn optional_text(text: Option<String>) -> Option<Seq<char>> {
    match text {
        Some(t) => Some(t@),
        None => None,
    }
}

/// The parts of a URI that the proxy reads.
pub struct UriParts {
    pub host: Option<Seq<char>>,
    pub path: Seq<char>,
    pub query: Option<Seq<char>>,
}

/// A URI: its text, and the parts of it that the proxy reads.
#[derive(Debug)]
pub struct Uri {
    pub text: String,
    pub host: Option<String>,
    pub path: String,
    pub query: Option<String>,
}

impl Uri {
    /// The parts of the URI that the proxy reads.
    pub open spec fn parts(self) -> UriParts {
        UriParts {
            host: optional_text(self.host),
            path: self.path@,
            query: optional_text(self.query),
        }
    }
}

/// The parts that `text` has as a URI, or what is wrong with it.
pub uninterp spec fn parsed_uri(text: Seq<char>) -> Result<UriParts, InvalidUri>;

/// Whether the host of a URI, where there is one, is made of visible ASCII.
pub open spec fn has_visible_host(target: Result<UriParts, InvalidUri>) -> bool {
    target matches Ok(parts) ==> (parts.host matches Some(host) ==> forall|i: int|
        0 <= i < host.len() ==> ' ' < #[trigger] host[i] <= '~')
}

/// `hyper::Uri::from_str`: takes `text` apart as a URI, or says what is wrong with
/// it. Which of the two, the parts and the error are what `parsed_uri` names: they
/// depend on `text` alone. A text with anything but visible ASCII in its host is no
/// URI.
#[verifier::external_body]
pub(crate) fn parse_uri(text: &str) -> (res: Result<Uri, InvalidUri>)
    ensures
        target_parts(res) == parsed_uri(text@),
        res is Ok ==> target_text(res) == text@,
        has_visible_host(target_parts(res)),
{
    let uri: hyper::Uri = text.parse()?;
    Ok(
        Uri {
            text: text.to_owned(),
            host: uri.host().map(str::to_owned),
            path: uri.path().to_owned(),
            query: uri.query().map(str::to_owned),
        },
    )
}

/// The text of a URI, where there is one.
pub open spec fn target_text(target: Result<Uri, InvalidUri>) -> Seq<char> {
    match target {
        Ok(uri) => uri.text@,
        Err(_) => Seq::empty(),
    }
}

/// The parts of a URI, where there is one.
pub open spec fn target_parts(target: Result<Uri, InvalidUri>) -> Result<UriParts, InvalidUri> {
    match target {
        Ok(uri) => Ok(uri.parts()),
        Err(err) => Err(err),
    }
}

/// A request: its URI, its headers, and in `rest` all that the proxy passes on as
/// it is (method, version, extensions and body).
pub struct Request<B> {
    pub uri: Uri,
    pub headers: HeaderMap,
    pub rest: B,
}

/// A response: its status code, its headers, and in `rest` all that the proxy
/// passes on as it is (version, extensions and body).
pub struct Response<B> {
    pub status: u16,
    pub headers: HeaderMap,
    pub rest: B,
}

} // verus!
