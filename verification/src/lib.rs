//! The rules of an HTTP reverse proxy: where a request goes, which headers it and
//! its response have on the other side, and when a connection is upgraded.

pub mod error;
pub mod exchange;
pub mod forward;
pub mod headers;
pub mod laws;
pub mod message;
pub mod proxy;
pub mod text;

pub use crate::error::ProxyError;
pub use crate::exchange::{finish_upgrade, Exchange, Next};
pub use crate::forward::forward_uri;
pub use crate::message::{Request, Response, Uri};
pub use crate::proxy::{checked_proxied_request, create_proxied_request, create_proxied_response};
