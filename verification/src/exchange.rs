//! A proxied call step by step: what to send, and what to make of the answer.

use crate::error::ProxyError;
use crate::forward::forwarded_url;
use crate::headers::{
    checked_upgrade_type, header_entries, is_visible_text, lemma_readable_bytes, upgrade_readable,
    upgrade_type, without_hop, Entries,
};
use crate::message::{optional_text, parsed_uri, Request, Response};
use crate::proxy::{
    checked_proxied_request, create_proxied_response, has_room, is_proxiable, is_proxied,
    is_refused,
};
use crate::text::{chars_of, same_text};
use vstd::prelude::*;

verus! {

/// The status code by which a backend agrees to an upgrade.
pub const SWITCHING_PROTOCOLS: u16 = 101;

/// Whether an optional text, where there is one, is made of visible ASCII, spaces
/// and tabs.
pub open spec fn is_visible_kind(kind: Option<Seq<char>>) -> bool {
    kind matches Some(text) ==> is_visible_text(text)
}

/// A character as it stands between quotation marks.
pub open spec fn escaped_char(c: char) -> Seq<char> {
    if c == '"' {
        seq!['\\', '"']
    } else if c == '\\' {
        seq!['\\', '\\']
    } else if c == '\t' {
        seq!['\\', 't']
    } else {
        seq![c]
    }
}

/// A text as it stands between quotation marks.
pub open spec fn escaped(text: Seq<char>) -> Seq<char>
    decreases text.len(),
{
    if text.len() == 0 {
        Seq::empty()
    } else {
        escaped(text.drop_last()) + escaped_char(text.last())
    }
}

/// How a protocol, or the lack of one, is shown.
pub open spec fn shown_kind(kind: Option<Seq<char>>) -> Seq<char> {
    match kind {
        Some(text) => "Some(\""@ + escaped(text) + "\")"@,
        None => "None"@,
    }
}

/// What is said of a backend that switches to another protocol than requested.
pub open spec fn mismatch_text(offered: Option<Seq<char>>, requested: Option<Seq<char>>) -> Seq<
    char,
> {
    "backend tried to switch to protocol "@ + shown_kind(offered) + " when "@ + shown_kind(
        requested,
    ) + " was requested"@
}

/// Shows a protocol, or the lack of one.
fn show_kind(kind: &Option<String>) -> (text: String)
    ensures
        text@ == shown_kind(optional_text(*kind)),
{
    match kind {
        None => "None".to_owned(),
        Some(kind) => {
            proof {
                reveal_strlit("\\\"");
                reveal_strlit("\\\\");
                reveal_strlit("\\t");
                assert("\\\""@ == seq!['\\', '"']);
                assert("\\\\"@ == seq!['\\', '\\']);
                assert("\\t"@ == seq!['\\', 't']);
                assert(kind@.take(0) == Seq::<char>::empty());
            }
            let chars = chars_of(kind.as_str());
            let mut text = "Some(\"".to_owned();
            assert("Some(\""@ + Seq::<char>::empty() == "Some(\""@);
            let mut i: usize = 0;
            while i < chars.len()
                invariant
                    chars@ == kind@,
                    i <= chars.len(),
                    "\\\""@ == seq!['\\', '"'],
                    "\\\\"@ == seq!['\\', '\\'],
                    "\\t"@ == seq!['\\', 't'],
                    text@ == "Some(\""@ + escaped(kind@.take(i as int)),
                decreases chars.len() - i,
            {
                assert(kind@.take(i + 1).drop_last() == kind@.take(i as int));
                let c = chars[i];
                if c == '"' {
                    text.append("\\\"");
                } else if c == '\\' {
                    text.append("\\\\");
                } else if c == '\t' {
                    text.append("\\t");
                } else {
                    text.append(kind.as_str().substring_char(i, i + 1));
                    assert(kind@.subrange(i as int, i + 1) == seq![c]);
                }
                assert(text@ == "Some(\""@ + escaped(kind@.take(i + 1)));
                i = i + 1;
            }
            assert(kind@.take(i as int) == kind@);
            text.append("\")");
            text
        },
    }
}

/// Says of a backend that it switches to another protocol than requested.
fn mismatch_message(offered: &Option<String>, requested: &Option<String>) -> (text: String)
    requires
        is_visible_kind(optional_text(*offered)),
        is_visible_kind(optional_text(*requested)),
    ensures
        text@ == mismatch_text(optional_text(*offered), optional_text(*requested)),
{
    let mut text = "backend tried to switch to protocol ".to_owned();
    text.append(show_kind(offered).as_str());
    text.append(" when ");
    text.append(show_kind(requested).as_str());
    text.append(" was requested");
    text
}

/// Whether two protocols are the same, or both are missing.
fn same_kind(a: &Option<String>, b: &Option<String>) -> (res: bool)
    ensures
        res == (optional_text(*a) == optional_text(*b)),
{
    match (a, b) {
        (Some(a), Some(b)) => same_text(a.as_str(), b.as_str()),
        (None, None) => true,
        _ => false,
    }
}

/// The protocol of an upgrade is visible text.
proof fn lemma_upgrade_visible(entries: Entries)
    requires
        upgrade_readable(entries),
    ensures
        is_visible_kind(upgrade_type(entries)),
{
    if upgrade_type(entries) is Some {
        lemma_readable_bytes(entries["upgrade"@].first());
    }
}

/// A call whose request has gone to the backend.
pub struct Exchange {
    upgrade_type: Option<String>,
    upgradable: bool,
}

/// What follows on the backend's answer.
pub enum Next<C> {
    /// The call is over.
    Finish(Result<Response<C>, ProxyError>),
    /// The connection to the backend is to be upgraded before the client gets this
    /// response.
    Upgrade(Response<C>),
}

impl Exchange {
    /// The protocol that the client asked to upgrade to.
    pub closed spec fn requested(self) -> Option<Seq<char>> {
        optional_text(self.upgrade_type)
    }

    /// Whether the client's connection can be upgraded.
    pub closed spec fn can_upgrade(self) -> bool {
        self.upgradable
    }

    #[verifier::type_invariant]
    spec fn is_valid(self) -> bool {
        is_visible_kind(optional_text(self.upgrade_type))
    }

    /// Takes up a client's request: gives the call and the request that goes to the
    /// backend. Gives `None` where a header that decides on an upgrade is not
    /// readable, the request is not proxiable, or its header map cannot take the
    /// headers that are added.
    pub fn begin<B>(
        client_ip: &str,
        forward_url: &str,
        request: Request<B>,
        upgradable: bool,
    ) -> (res: Option<Result<(Exchange, Request<B>), ProxyError>>)
        ensures
            ({
                let entries = header_entries(request.headers);
                let url = forwarded_url(
                    forward_url@,
                    request.uri.path@,
                    optional_text(request.uri.query),
                );
                let kind = upgrade_type(entries);
                let clear = upgrade_readable(entries) && is_proxiable(
                    entries,
                    parsed_uri(url),
                    kind,
                );
                &&& res is None ==> !clear || !has_room(entries, 4)
                &&& res matches Some(outcome) ==> (outcome is Err <==> is_refused(
                    entries,
                    parsed_uri(url),
                    client_ip@,
                ))
                &&& res matches Some(Ok((exchange, proxied))) ==> {
                    &&& clear
                    &&& is_proxied(request, url, parsed_uri(url), client_ip@, kind, Ok(proxied))
                    &&& exchange.requested() == kind
                    &&& exchange.can_upgrade() == upgradable
                }
                &&& res matches Some(Err(err)) ==> clear && is_proxied(
                    request,
                    url,
                    parsed_uri(url),
                    client_ip@,
                    kind,
                    Err(err),
                )
            }),
    {
        let kind = match checked_upgrade_type(&request.headers) {
            Some(kind) => kind,
            None => {
                return None;
            },
        };
        proof {
            lemma_upgrade_visible(header_entries(request.headers));
        }
        match checked_proxied_request(client_ip, forward_url, request, kind.as_ref()) {
            None => None,
            Some(Err(err)) => Some(Err(err)),
            Some(Ok(proxied)) => Some(Ok((Exchange { upgrade_type: kind, upgradable }, proxied))),
        }
    }

    /// Makes of the backend's answer what the client gets. Gives `None` where the
    /// backend agrees to an upgrade in headers that are not readable.
    pub fn on_response<C>(
        self,
        answer: Result<Response<C>, hyper_util::client::legacy::Error>,
    ) -> (next: Option<Next<C>>)
        ensures
            match answer {
                Err(err) => next == Some(Next::<C>::Finish(Err(ProxyError::ClientError(err)))),
                Ok(response) => {
                    let entries = header_entries(response.headers);
                    let offered = upgrade_type(entries);
                    if response.status != 101 {
                        &&& next matches Some(Next::Finish(Ok(proxied)))
                        &&& proxied.status == response.status
                        &&& proxied.rest == response.rest
                        &&& header_entries(proxied.headers) == without_hop(entries)
                    } else if !upgrade_readable(entries) {
                        next is None
                    } else if offered != self.requested() {
                        &&& next matches Some(Next::Finish(Err(ProxyError::UpgradeError(text))))
                        &&& text@ == mismatch_text(offered, self.requested())
                    } else if !self.can_upgrade() {
                        &&& next matches Some(Next::Finish(Err(ProxyError::UpgradeError(text))))
                        &&& text@ == "request does not have an upgrade extension"@
                    } else {
                        next == Some(Next::Upgrade(response))
                    }
                },
            },
    {
        proof {
            use_type_invariant(&self);
        }
        let response = match answer {
            Ok(response) => response,
            Err(err) => {
                return Some(Next::Finish(Err(ProxyError::ClientError(err))));
            },
        };
        if response.status != SWITCHING_PROTOCOLS {
            return Some(Next::Finish(Ok(create_proxied_response(response))));
        }
        let offered = match checked_upgrade_type(&response.headers) {
            Some(kind) => kind,
            None => {
                return None;
            },
        };
        proof {
            lemma_upgrade_visible(header_entries(response.headers));
        }
        if !same_kind(&offered, &self.upgrade_type) {
            let text = mismatch_message(&offered, &self.upgrade_type);
            return Some(Next::Finish(Err(ProxyError::UpgradeError(text))));
        }
        if !self.upgradable {
            let text = "request does not have an upgrade extension".to_owned();
            return Some(Next::Finish(Err(ProxyError::UpgradeError(text))));
        }
        Some(Next::Upgrade(response))
    }
}

/// Ends a call whose connection to the backend was to be upgraded: the client gets
/// the backend's response as it is, and the upgraded connection is handed on.
pub fn finish_upgrade<C, U>(response: Response<C>, upgraded: Result<U, hyper::Error>) -> (res:
    Result<(Response<C>, U), ProxyError>)
    ensures
        match upgraded {
            Ok(connection) => res == Ok::<(Response<C>, U), ProxyError>((response, connection)),
            Err(err) => res == Err::<(Response<C>, U), ProxyError>(ProxyError::HyperError(err)),
        },
{
    match upgraded {
        Ok(connection) => Ok((response, connection)),
        Err(err) => Err(ProxyError::from(err)),
    }
}

} // verus!
