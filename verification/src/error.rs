//! What can go wrong with a proxied call.

use hyper::http::header::{InvalidHeaderValue, ToStrError};
use hyper::http::uri::InvalidUri;
use vstd::prelude::*;
use vstd::string::to_string_from_display_ensures;

verus! {

/// `hyper::http::uri::InvalidUri`, why a text is no URI.
#[verifier::external_type_specification]
#[verifier::external_body]
pub struct ExInvalidUri(InvalidUri);

/// `hyper::http::header::ToStrError`, from a header value that is not readable.
#[verifier::external_type_specification]
#[verifier::external_body]
pub struct ExToStrError(ToStrError);

/// `hyper::http::header::InvalidHeaderValue`, from a text that no header can hold.
#[verifier::external_type_specification]
#[verifier::external_body]
pub struct ExInvalidHeaderValue(InvalidHeaderValue);

/// `hyper::Error`, from a connection that failed.
#[verifier::external_type_specification]
#[verifier::external_body]
pub struct ExHyperError(hyper::Error);

/// `hyper_util::client::legacy::Error`, from a request that did not get through.
#[verifier::external_type_specification]
#[verifier::external_body]
pub struct ExClientError(hyper_util::client::legacy::Error);

/// Why a call was not proxied.
#[derive(Debug)]
pub enum ProxyError {
    /// The backend could not be reached.
    ClientError(hyper_util::client::legacy::Error),
    /// The request would go to something that is not a URI.
    InvalidUri(InvalidUri),
    /// The connection to the backend failed while it was upgraded.
    HyperError(hyper::Error),
    /// A header of the forwarded request cannot hold its value.
    ForwardHeaderError,
    /// The backend's answer to an upgrade does not fit the request.
    UpgradeError(String),
}

impl From<hyper::Error> for ProxyError {
    fn from(err: hyper::Error) -> (res: ProxyError) {
        ProxyError::HyperError(err)
    }
}

impl vstd::std_specs::convert::FromSpecImpl<hyper::Error> for ProxyError {
    open spec fn obeys_from_spec() -> bool {
        true
    }

    open spec fn from_spec(err: hyper::Error) -> ProxyError {
        ProxyError::HyperError(err)
    }
}

impl From<InvalidUri> for ProxyError {
    fn from(err: InvalidUri) -> (res: ProxyError) {
        ProxyError::InvalidUri(err)
    }
}

impl vstd::std_specs::convert::FromSpecImpl<InvalidUri> for ProxyError {
    open spec fn obeys_from_spec() -> bool {
        true
    }

    open spec fn from_spec(err: InvalidUri) -> ProxyError {
        ProxyError::InvalidUri(err)
    }
}

impl From<ToStrError> for ProxyError {
    fn from(err: ToStrError) -> (res: ProxyError) {
        ProxyError::ForwardHeaderError
    }
}

impl vstd::std_specs::convert::FromSpecImpl<ToStrError> for ProxyError {
    open spec fn obeys_from_spec() -> bool {
        true
    }

    open spec fn from_spec(err: ToStrError) -> ProxyError {
        ProxyError::ForwardHeaderError
    }
}

impl From<InvalidHeaderValue> for ProxyError {
    fn from(err: InvalidHeaderValue) -> (res: ProxyError) {
        ProxyError::ForwardHeaderError
    }
}

impl vstd::std_specs::convert::FromSpecImpl<InvalidHeaderValue> for ProxyError {
    open spec fn obeys_from_spec() -> bool {
        true
    }

    open spec fn from_spec(err: InvalidHeaderValue) -> ProxyError {
        ProxyError::ForwardHeaderError
    }
}

/// `label`, then `detail`.
fn labelled(label: &str, detail: &str) -> (text: String)
    ensures
        text@ == label@ + detail@,
{
    label.to_owned().concat(detail)
}

impl ProxyError {
    /// The error as a line of text.
    pub fn message(&self) -> (text: String)
        ensures
            self matches ProxyError::ClientError(err) ==> exists|shown: String| #[trigger]
                to_string_from_display_ensures(err, shown) && text@ == "ClientError: "@ + shown@,
            self matches ProxyError::InvalidUri(err) ==> exists|shown: String| #[trigger]
                to_string_from_display_ensures(err, shown) && text@ == "InvalidUri: "@ + shown@,
            self matches ProxyError::HyperError(err) ==> exists|shown: String| #[trigger]
                to_string_from_display_ensures(err, shown) && text@ == "HyperError: "@ + shown@,
            self is ForwardHeaderError ==> text@ == "ForwardHeaderError"@,
            self matches ProxyError::UpgradeError(err) ==> text@ == "UpgradeError: "@ + err@,
    {
        match self {
            ProxyError::ClientError(err) => {
                let shown = err.to_string();
                labelled("ClientError: ", shown.as_str())
            },
            ProxyError::InvalidUri(err) => {
                let shown = err.to_string();
                labelled("InvalidUri: ", shown.as_str())
            },
            ProxyError::HyperError(err) => {
                let shown = err.to_string();
                labelled("HyperError: ", shown.as_str())
            },
            ProxyError::ForwardHeaderError => "ForwardHeaderError".to_owned(),
            ProxyError::UpgradeError(err) => labelled("UpgradeError: ", err.as_str()),
        }
    }
}

} // verus!
