//! The request that goes to the backend, and the response that comes back.

use crate::error::ProxyError;
use crate::forward::{forward_uri, forwarded_url};
use crate::headers::{
    count_names, get_header, has_item, header_entries, header_lists, header_text, insert_header,
    is_header_value, is_readable, is_utf8, lemma_hop_names, lemma_other_names, lemma_visible_text,
    remove_connection_headers, remove_hop_headers, without_hop, Entries, ALWAYS_ROOM,
};
use crate::message::{
    has_visible_host, optional_text, parse_uri, parsed_uri, target_parts, target_text, Request,
    Response, Uri, UriParts,
};
use hyper::header::HeaderValue;
use hyper::http::uri::InvalidUri;
use vstd::prelude::*;
use vstd::utf8::{encode_utf8, valid_utf8};

verus! {

/// Makes of the backend's response the one that the client gets: without hop
/// headers. As `connection` is one of these, no header is left that could list
/// others.
pub fn create_proxied_response<B>(response: Response<B>) -> (proxied: Response<B>)
    ensures
        proxied.status == response.status,
        proxied.rest == response.rest,
        header_entries(proxied.headers) == without_hop(header_entries(response.headers)),
        forall|name: Seq<char>|
            #![trigger header_entries(proxied.headers).contains_key(name)]
            {
                let hop = set![
                    "connection"@,
                    "keep-alive"@,
                    "proxy-authenticate"@,
                    "proxy-authorization"@,
                    "proxy-connection"@,
                    "te"@,
                    "trailer"@,
                    "transfer-encoding"@,
                    "upgrade"@,
                ];
                let came = header_entries(response.headers);
                let sent = header_entries(proxied.headers);
                &&& sent.contains_key(name) <==> came.contains_key(name)
                    && !hop.contains(name)
                &&& sent.contains_key(name) ==> sent[name] == came[name]
            },
{
    let mut proxied = response;
    remove_hop_headers(&mut proxied.headers);
    remove_connection_headers(&mut proxied.headers);
    proxied
}

/// The headers that the backend gets for those of a request: the host is that of
/// the URI, hop headers are dropped, a `te` that listed trailers comes back with
/// only them, an upgrade is asked for anew, and the client's address is noted
/// where no `x-forwarded-for` is there.
pub open spec fn proxied_headers(
    entries: Entries,
    host: Seq<char>,
    client_ip: Seq<char>,
    upgrade: Option<Seq<char>>,
) -> Entries {
    let stripped = without_hop(entries.insert("host"@, seq![encode_utf8(host)]));
    let with_te = if header_lists(entries, "te"@, "trailers"@) {
        stripped.insert("te"@, seq![encode_utf8("trailers"@)])
    } else {
        stripped
    };
    let with_upgrade = match upgrade {
        Some(kind) => with_te.insert("upgrade"@, seq![encode_utf8(kind)]).insert(
            "connection"@,
            seq![encode_utf8("UPGRADE"@)],
        ),
        None => with_te,
    };
    if entries.contains_key("x-forwarded-for"@) {
        with_upgrade
    } else {
        with_upgrade.insert("x-forwarded-for"@, seq![encode_utf8(client_ip)])
    }
}

/// Whether the headers that are added to a request can hold their values.
pub open spec fn can_hold(entries: Entries, host: Seq<char>, client_ip: Seq<char>) -> bool {
    &&& is_header_value(encode_utf8(host))
    &&& entries.contains_key("x-forwarded-for"@) || is_header_value(encode_utf8(client_ip))
}

/// Whether a request to `target` can be proxied or refused with an error: what is
/// read of its headers is readable, the URI has a host, and the protocol of an
/// upgrade can stand in a header.
pub open spec fn is_proxiable(
    entries: Entries,
    target: Result<UriParts, InvalidUri>,
    upgrade: Option<Seq<char>>,
) -> bool {
    &&& is_readable(entries, "te"@)
    &&& match target {
        Ok(parts) => match parts.host {
            Some(host) => is_header_value(encode_utf8(host)) ==> {
                &&& upgrade matches Some(kind) ==> is_header_value(encode_utf8(kind))
                &&& entries.contains_key("x-forwarded-for"@) ==> valid_utf8(
                    entries["x-forwarded-for"@].first(),
                )
            },
            None => false,
        },
        Err(_) => true,
    }
}

/// Whether `outcome` is what becomes of `request` when it goes to the URI with the
/// text `url` and the parts `target`, or to no URI at all.
pub open spec fn is_proxied<B>(
    request: Request<B>,
    url: Seq<char>,
    target: Result<UriParts, InvalidUri>,
    client_ip: Seq<char>,
    upgrade: Option<Seq<char>>,
    outcome: Result<Request<B>, ProxyError>,
) -> bool {
    match target {
        Err(err) => outcome == Err::<Request<B>, ProxyError>(ProxyError::InvalidUri(err)),
        Ok(parts) => {
            let entries = header_entries(request.headers);
            let host = parts.host->0;
            if can_hold(entries, host, client_ip) {
                &&& outcome matches Ok(proxied)
                &&& proxied.uri.text@ == url
                &&& proxied.uri.parts() == parts
                &&& proxied.rest == request.rest
                &&& header_entries(proxied.headers) == proxied_headers(
                    entries,
                    host,
                    client_ip,
                    upgrade,
                )
            } else {
                outcome == Err::<Request<B>, ProxyError>(ProxyError::ForwardHeaderError)
            }
        },
    }
}

/// Whether a request is refused with an error: `target` is no URI, or the client's
/// address has to stand in a header that cannot hold it.
pub open spec fn is_refused(
    entries: Entries,
    target: Result<UriParts, InvalidUri>,
    client_ip: Seq<char>,
) -> bool {
    ||| target is Err
    ||| !entries.contains_key("x-forwarded-for"@) && !is_header_value(encode_utf8(client_ip))
}

/// The host of a URI never is the reason that a request is refused.
proof fn lemma_refused<B>(
    request: Request<B>,
    url: Seq<char>,
    target: Result<UriParts, InvalidUri>,
    client_ip: Seq<char>,
    upgrade: Option<Seq<char>>,
    outcome: Result<Request<B>, ProxyError>,
)
    requires
        has_visible_host(target),
        is_proxiable(header_entries(request.headers), target, upgrade),
        is_proxied(request, url, target, client_ip, upgrade, outcome),
    ensures
        outcome is Err <==> is_refused(header_entries(request.headers), target, client_ip),
{
    if let Ok(parts) = target {
        lemma_visible_text(parts.host->0);
    }
}

/// What a borrowed string holds.
pub open spec fn borrowed_text(text: Option<&String>) -> Option<Seq<char>> {
    match text {
        Some(t) => Some(t@),
        None => None,
    }
}

/// Whether a header map takes another name for certain, even once it has got `spare`
/// more.
pub open spec fn has_room(entries: Entries, spare: nat) -> bool {
    entries.dom().len() + spare < ALWAYS_ROOM
}

/// One more name takes one place of the room that there is.
proof fn lemma_room_after_insert(
    entries: Entries,
    name: Seq<char>,
    values: Seq<Seq<u8>>,
    spare: nat,
)
    requires
        entries.insert(name, values).dom().finite(),
        has_room(entries, spare + 1),
    ensures
        has_room(entries.insert(name, values), spare),
{
    let grown = entries.insert(name, values).dom();
    assert(entries.dom().subset_of(grown));
    vstd::set_lib::lemma_set_subset_finite(grown, entries.dom());
}

/// Dropping the hop headers takes no room.
proof fn lemma_room_without_hop(entries: Entries, spare: nat)
    requires
        entries.dom().finite(),
        has_room(entries, spare),
    ensures
        without_hop(entries).dom().finite(),
        has_room(without_hop(entries), spare),
{
    assert(without_hop(entries).dom().subset_of(entries.dom()));
    vstd::set_lib::lemma_set_subset_finite(entries.dom(), without_hop(entries).dom());
    vstd::set_lib::lemma_len_subset(without_hop(entries).dom(), entries.dom());
}

/// Makes of a client's request the one that goes to `target`, or refuses it where
/// that is no URI. Gives `None` where the request is not proxiable or its header
/// map cannot take the headers that are added.
pub fn redirect_request<B>(
    client_ip: &str,
    request: Request<B>,
    target: Result<Uri, InvalidUri>,
    upgrade_type: Option<&String>,
) -> (res: Option<Result<Request<B>, ProxyError>>)
    ensures
        ({
            let entries = header_entries(request.headers);
            let parts = target_parts(target);
            let upgrade = borrowed_text(upgrade_type);
            &&& res matches Some(outcome) ==> is_proxiable(entries, parts, upgrade) && is_proxied(
                request,
                target_text(target),
                parts,
                client_ip@,
                upgrade,
                outcome,
            )
            &&& res is None ==> !is_proxiable(entries, parts, upgrade) || !has_room(entries, 4)
        }),
{
    let ghost entries = header_entries(request.headers);
    let ghost upgrade = borrowed_text(upgrade_type);
    proof {
        lemma_other_names();
        lemma_hop_names("te"@);
        lemma_hop_names("upgrade"@);
        lemma_hop_names("connection"@);
        reveal_strlit("trailers");
        reveal_strlit("UPGRADE");
        lemma_visible_text("trailers"@);
        lemma_visible_text("UPGRADE"@);
    }
    let keeps_trailers = match header_text(&request.headers, "te") {
        Some(Some(te)) => has_item(te.as_str(), "trailers"),
        Some(None) => false,
        None => {
            return None;
        },
    };
    let uri = match target {
        Ok(uri) => uri,
        Err(err) => {
            return Some(Err(ProxyError::from(err)));
        },
    };
    let host = match &uri.host {
        Some(host) => match HeaderValue::from_str(host.as_str()) {
            Ok(value) => value,
            Err(err) => {
                return Some(Err(ProxyError::from(err)));
            },
        },
        None => {
            return None;
        },
    };
    let mut proxied = request;
    if !insert_header(&mut proxied.headers, "host", host) {
        return None;
    }
    proxied.uri = uri;
    let ghost with_host = header_entries(proxied.headers);
    remove_hop_headers(&mut proxied.headers);
    remove_connection_headers(&mut proxied.headers);
    let ghost stripped = header_entries(proxied.headers);
    proof {
        if has_room(entries, 4) {
            lemma_room_after_insert(entries, "host"@, with_host["host"@], 3);
            lemma_room_without_hop(with_host, 3);
        }
    }
    if keeps_trailers {
        if !insert_header(&mut proxied.headers, "te", HeaderValue::from_static("trailers")) {
            return None;
        }
    }
    let ghost with_te = header_entries(proxied.headers);
    proof {
        if has_room(entries, 4) && keeps_trailers {
            lemma_room_after_insert(stripped, "te"@, with_te["te"@], 2);
        }
    }
    if let Some(kind) = upgrade_type {
        let value = match HeaderValue::from_str(kind.as_str()) {
            Ok(value) => value,
            Err(_) => {
                return None;
            },
        };
        if !insert_header(&mut proxied.headers, "upgrade", value) {
            return None;
        }
        let ghost upgraded = header_entries(proxied.headers);
        proof {
            if has_room(entries, 4) {
                lemma_room_after_insert(with_te, "upgrade"@, upgraded["upgrade"@], 1);
            }
        }
        if !insert_header(&mut proxied.headers, "connection", HeaderValue::from_static("UPGRADE")) {
            return None;
        }
        proof {
            if has_room(entries, 4) {
                let connected = header_entries(proxied.headers);
                lemma_room_after_insert(upgraded, "connection"@, connected["connection"@], 0);
            }
        }
    }
    match get_header(&proxied.headers, "x-forwarded-for") {
        Some(value) => {
            if !is_utf8(value.as_bytes()) {
                return None;
            }
        },
        None => {
            let value = match HeaderValue::from_str(client_ip) {
                Ok(value) => value,
                Err(err) => {
                    return Some(Err(ProxyError::from(err)));
                },
            };
            if !insert_header(&mut proxied.headers, "x-forwarded-for", value) {
                return None;
            }
        },
    }
    Some(Ok(proxied))
}

/// Whether a request to `target` is proxiable.
pub fn can_redirect<B>(
    request: &Request<B>,
    target: &Result<Uri, InvalidUri>,
    upgrade_type: Option<&String>,
) -> (res: bool)
    ensures
        res == is_proxiable(
            header_entries(request.headers),
            target_parts(*target),
            borrowed_text(upgrade_type),
        ),
{
    proof {
        lemma_other_names();
        lemma_hop_names("te"@);
    }
    if header_text(&request.headers, "te").is_none() {
        return false;
    }
    let uri = match target {
        Ok(uri) => uri,
        Err(_) => {
            return true;
        },
    };
    match &uri.host {
        Some(host) => {
            if HeaderValue::from_str(host.as_str()).is_err() {
                return true;
            }
        },
        None => {
            return false;
        },
    }
    if let Some(kind) = upgrade_type {
        if HeaderValue::from_str(kind.as_str()).is_err() {
            return false;
        }
    }
    match get_header(&request.headers, "x-forwarded-for") {
        Some(value) => is_utf8(value.as_bytes()),
        None => true,
    }
}

/// Makes of a client's request the one that goes to the backend. It fails where the
/// request would go to no URI, or where no header can hold the client's address, and
/// nowhere else.
pub fn create_proxied_request<B>(
    client_ip: &str,
    forward_url: &str,
    request: Request<B>,
    upgrade_type: Option<&String>,
) -> (outcome: Result<Request<B>, ProxyError>)
    requires
        is_proxiable(
            header_entries(request.headers),
            parsed_uri(
                forwarded_url(forward_url@, request.uri.path@, optional_text(request.uri.query)),
            ),
            borrowed_text(upgrade_type),
        ),
        has_room(header_entries(request.headers), 4),
    ensures
        ({
            let url = forwarded_url(
                forward_url@,
                request.uri.path@,
                optional_text(request.uri.query),
            );
            &&& is_proxied(
                request,
                url,
                parsed_uri(url),
                client_ip@,
                borrowed_text(upgrade_type),
                outcome,
            )
            &&& outcome is Err <==> is_refused(
                header_entries(request.headers),
                parsed_uri(url),
                client_ip@,
            )
        }),
{
    let url = forward_uri(forward_url, &request);
    let target = parse_uri(url.as_str());
    let ghost parts = target_parts(target);
    let outcome = redirect_request(client_ip, request, target, upgrade_type).unwrap();
    proof {
        lemma_refused(request, url@, parts, client_ip@, borrowed_text(upgrade_type), outcome);
    }
    outcome
}

/// Makes of a client's request the one that goes to the backend, or `None` where
/// the request is not proxiable or its header map cannot take the headers that
/// are added.
pub fn checked_proxied_request<B>(
    client_ip: &str,
    forward_url: &str,
    request: Request<B>,
    upgrade_type: Option<&String>,
) -> (res: Option<Result<Request<B>, ProxyError>>)
    ensures
        ({
            let entries = header_entries(request.headers);
            let url = forwarded_url(
                forward_url@,
                request.uri.path@,
                optional_text(request.uri.query),
            );
            let upgrade = borrowed_text(upgrade_type);
            &&& res matches Some(outcome) ==> {
                &&& is_proxiable(entries, parsed_uri(url), upgrade)
                &&& is_proxied(request, url, parsed_uri(url), client_ip@, upgrade, outcome)
                &&& outcome is Err <==> is_refused(entries, parsed_uri(url), client_ip@)
            }
            &&& res is None ==> !is_proxiable(entries, parsed_uri(url), upgrade) || !has_room(
                entries,
                4,
            )
        }),
{
    let url = forward_uri(forward_url, &request);
    let target = parse_uri(url.as_str());
    let room = count_names(&request.headers) < ALWAYS_ROOM - 4;
    if room && can_redirect(&request, &target, upgrade_type) {
        Some(create_proxied_request(client_ip, forward_url, request, upgrade_type))
    } else {
        let ghost parts = target_parts(target);
        let res = redirect_request(client_ip, request, target, upgrade_type);
        proof {
            let upgrade = borrowed_text(upgrade_type);
            if res is Some {
                lemma_refused(request, url@, parts, client_ip@, upgrade, res->0);
            }
        }
        res
    }
}

} // verus!
