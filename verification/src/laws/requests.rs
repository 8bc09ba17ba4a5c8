//! What holds of the request that goes to the backend, over the request that came and
//! the outcome.

use crate::error::ProxyError;
use crate::headers::{
    header_entries, header_lists, is_header_value, is_visible, lemma_other_names, lists_name,
    value_text, Entries,
};
use crate::laws::headers::law_hop_names;
use crate::laws::{
    law_request_forwarded_for, law_request_hop_headers, law_request_host, law_request_other_headers,
};
use crate::message::{
    has_visible_host, optional_text, target_parts, target_text, Request, Uri, UriParts,
};
use crate::proxy::{borrowed_text, has_room, is_proxiable, is_proxied, is_refused};
use hyper::http::uri::InvalidUri;
use vstd::prelude::*;
use vstd::utf8::{encode_utf8, valid_utf8};

verus! {

/// A request that goes to no URI is refused with what is wrong with that. One that goes
/// to a host is forwarded where headers can hold the host and, unless an earlier proxy
/// has noted an address, the client's. It is refused for its headers otherwise.
pub proof fn law_sent_or_refused<B>(
    request: Request<B>,
    url: Seq<char>,
    target: Result<UriParts, InvalidUri>,
    client_ip: Seq<char>,
    upgrade: Option<Seq<char>>,
    outcome: Result<Request<B>, ProxyError>,
)
    requires
        is_proxied(request, url, target, client_ip, upgrade, outcome),
    ensures
        match target {
            Err(err) => outcome == Err::<Request<B>, ProxyError>(ProxyError::InvalidUri(err)),
            Ok(parts) => parts.host matches Some(host) ==> {
                let noted = header_entries(request.headers).contains_key("x-forwarded-for"@);
                let fits = is_header_value(encode_utf8(host)) && (noted || is_header_value(
                    encode_utf8(client_ip),
                ));
                &&& fits ==> outcome is Ok
                &&& !fits ==> outcome == Err::<Request<B>, ProxyError>(
                    ProxyError::ForwardHeaderError,
                )
            },
        },
{
}

/// A forwarded request goes to the URI that was built for it, and takes with it all
/// that is neither URI nor header.
pub proof fn law_sent_target<B>(
    request: Request<B>,
    url: Seq<char>,
    target: Result<UriParts, InvalidUri>,
    client_ip: Seq<char>,
    upgrade: Option<Seq<char>>,
    proxied: Request<B>,
)
    requires
        is_proxied(request, url, target, client_ip, upgrade, Ok(proxied)),
    ensures
        proxied.rest == request.rest,
        proxied.uri.text@ == url,
        target matches Ok(parts) && {
            &&& proxied.uri.path@ == parts.path
            &&& parts.host == match proxied.uri.host {
                Some(host) => Some(host@),
                None => None,
            }
            &&& parts.query == match proxied.uri.query {
                Some(query) => Some(query@),
                None => None,
            }
        },
{
}

/// Every header of a request but nine, the host and the noted address reaches the
/// backend with all of its values, and no other is added.
pub proof fn law_sent_headers_pass<B>(
    request: Request<B>,
    url: Seq<char>,
    target: Result<UriParts, InvalidUri>,
    client_ip: Seq<char>,
    upgrade: Option<Seq<char>>,
    proxied: Request<B>,
    name: Seq<char>,
)
    requires
        is_proxied(request, url, target, client_ip, upgrade, Ok(proxied)),
        !set![
            "connection"@,
            "keep-alive"@,
            "proxy-authenticate"@,
            "proxy-authorization"@,
            "proxy-connection"@,
            "te"@,
            "trailer"@,
            "transfer-encoding"@,
            "upgrade"@,
        ].contains(name),
        name != "host"@,
        name != "x-forwarded-for"@,
    ensures
        ({
            let came = header_entries(request.headers);
            let sent = header_entries(proxied.headers);
            &&& sent.contains_key(name) == came.contains_key(name)
            &&& came.contains_key(name) ==> sent[name] == came[name]
        }),
{
    let entries = header_entries(request.headers);
    law_hop_names(name);
    law_request_other_headers(entries, (target->Ok_0).host->0, client_ip, upgrade, name);
}

/// A forwarded request has one `host` header, with the host of its URI. It has the
/// `x-forwarded-for` headers of the request that came, or where there are none, one
/// with the client's address.
pub proof fn law_sent_addresses<B>(
    request: Request<B>,
    url: Seq<char>,
    target: Result<UriParts, InvalidUri>,
    client_ip: Seq<char>,
    upgrade: Option<Seq<char>>,
    proxied: Request<B>,
)
    requires
        is_proxied(request, url, target, client_ip, upgrade, Ok(proxied)),
    ensures
        ({
            let came = header_entries(request.headers);
            let sent = header_entries(proxied.headers);
            let host = (target->Ok_0).host->0;
            &&& sent.contains_key("host"@)
            &&& sent["host"@] == seq![encode_utf8(host)]
            &&& sent.contains_key("x-forwarded-for"@)
            &&& came.contains_key("x-forwarded-for"@) ==> sent["x-forwarded-for"@]
                == came["x-forwarded-for"@]
            &&& !came.contains_key("x-forwarded-for"@) ==> sent["x-forwarded-for"@] == seq![
                encode_utf8(client_ip),
            ]
        }),
{
    let entries = header_entries(request.headers);
    let host = (target->Ok_0).host->0;
    law_request_host(entries, host, client_ip, upgrade);
    law_request_forwarded_for(entries, host, client_ip, upgrade);
}

/// Of the nine headers that a request may not pass on, the backend gets `upgrade` with
/// the protocol and `connection` with `UPGRADE` where there is a protocol to upgrade
/// to, `te` with `trailers` where that was listed, and none of the others.
pub proof fn law_sent_hop_headers<B>(
    request: Request<B>,
    url: Seq<char>,
    target: Result<UriParts, InvalidUri>,
    client_ip: Seq<char>,
    upgrade: Option<Seq<char>>,
    proxied: Request<B>,
)
    requires
        is_proxied(request, url, target, client_ip, upgrade, Ok(proxied)),
    ensures
        ({
            let came = header_entries(request.headers);
            let sent = header_entries(proxied.headers);
            let trailers = came.contains_key("te"@) && lists_name(
                value_text(came["te"@].first()),
                "trailers"@,
            );
            &&& sent.contains_key("te"@) == trailers
            &&& trailers ==> sent["te"@] == seq![encode_utf8("trailers"@)]
            &&& sent.contains_key("upgrade"@) == (upgrade is Some)
            &&& sent.contains_key("connection"@) == (upgrade is Some)
            &&& upgrade matches Some(kind) ==> sent["upgrade"@] == seq![encode_utf8(kind)]
            &&& upgrade is Some ==> sent["connection"@] == seq![encode_utf8("UPGRADE"@)]
            &&& !sent.contains_key("keep-alive"@)
            &&& !sent.contains_key("proxy-authenticate"@)
            &&& !sent.contains_key("proxy-authorization"@)
            &&& !sent.contains_key("proxy-connection"@)
            &&& !sent.contains_key("trailer"@)
            &&& !sent.contains_key("transfer-encoding"@)
        }),
{
    let entries = header_entries(request.headers);
    let host = (target->Ok_0).host->0;
    lemma_other_names();
    lemma_distinct_names();
    assert forall|name: Seq<char>| set![
        "connection"@,
        "keep-alive"@,
        "proxy-authenticate"@,
        "proxy-authorization"@,
        "proxy-connection"@,
        "te"@,
        "trailer"@,
        "transfer-encoding"@,
        "upgrade"@,
    ].contains(name) implies #[trigger] header_entries(proxied.headers).contains_key(name) == {
        ||| name == "te"@ && header_lists(entries, "te"@, "trailers"@)
        ||| (name == "upgrade"@ || name == "connection"@) && upgrade is Some
    } by {
        law_hop_names(name);
        law_request_hop_headers(entries, host, client_ip, upgrade, name);
    }
    law_hop_names("te"@);
    law_request_hop_headers(entries, host, client_ip, upgrade, "te"@);
}

/// The hop headers that are sent anew have other names than those that are not.
proof fn lemma_distinct_names()
    ensures
        "keep-alive"@ != "te"@,
        "keep-alive"@ != "upgrade"@,
        "keep-alive"@ != "connection"@,
        "proxy-authenticate"@ != "te"@,
        "proxy-authenticate"@ != "upgrade"@,
        "proxy-authenticate"@ != "connection"@,
        "proxy-authorization"@ != "te"@,
        "proxy-authorization"@ != "upgrade"@,
        "proxy-authorization"@ != "connection"@,
        "proxy-connection"@ != "te"@,
        "proxy-connection"@ != "upgrade"@,
        "proxy-connection"@ != "connection"@,
        "trailer"@ != "te"@,
        "trailer"@ != "upgrade"@,
        "trailer"@ != "connection"@,
        "transfer-encoding"@ != "te"@,
        "transfer-encoding"@ != "upgrade"@,
        "transfer-encoding"@ != "connection"@,
{
    reveal_strlit("keep-alive");
    reveal_strlit("proxy-authenticate");
    reveal_strlit("proxy-authorization");
    reveal_strlit("proxy-connection");
    reveal_strlit("trailer");
    reveal_strlit("transfer-encoding");
    reveal_strlit("te");
    reveal_strlit("upgrade");
    reveal_strlit("connection");
    assert("keep-alive"@[0] == 'k' && "connection"@[0] == 'c');
    assert("trailer"@[0] == 't' && "upgrade"@[0] == 'u');
    assert("te"@.len() == 2 && "upgrade"@.len() == 7 && "connection"@.len() == 10);
}

/// A request is proxiable where its `te` header, if any, is readable, and it goes to no
/// URI or to one with a host. Where a header can hold that host, one has to be able to
/// hold the protocol of an upgrade as well, and an address that is noted has to be
/// UTF-8.
pub proof fn law_proxiable(
    entries: Entries,
    target: Result<UriParts, InvalidUri>,
    upgrade: Option<Seq<char>>,
)
    ensures
        is_proxiable(entries, target, upgrade) <==> {
            let te = !entries.contains_key("te"@) || is_visible(entries["te"@].first());
            let kind = upgrade is None || is_header_value(encode_utf8(upgrade->0));
            let noted = !entries.contains_key("x-forwarded-for"@) || valid_utf8(
                entries["x-forwarded-for"@].first(),
            );
            let host = (target->Ok_0).host;
            te && (target is Err || host is Some && (kind && noted || !is_header_value(
                encode_utf8(host->0),
            )))
        },
{
}

/// A proxiable request is refused where it goes to no URI, or where it has no noted
/// address and no header can hold the client's.
pub proof fn law_refused(
    entries: Entries,
    target: Result<UriParts, InvalidUri>,
    client_ip: Seq<char>,
)
    ensures
        !is_refused(entries, target, client_ip) <==> target is Ok && (entries.contains_key(
            "x-forwarded-for"@,
        ) || is_header_value(encode_utf8(client_ip))),
{
}

/// There is room for `spare` names and one more while a header map holds fewer than
/// 6554 with them.
pub proof fn law_room(entries: Entries, spare: nat)
    ensures
        has_room(entries, spare) <==> entries.dom().len() + spare < 6554,
{
}

/// A host is visible where each of its characters stands in ASCII between the space and
/// the last control character.
pub proof fn law_visible_host(target: Result<UriParts, InvalidUri>)
    ensures
        !has_visible_host(target) <==> {
            let host = (target->Ok_0).host;
            target is Ok && host is Some && exists|i: int|
                0 <= i < host->0.len() && !(' ' < #[trigger] host->0[i] < '\u{7f}')
        },
{
    if !has_visible_host(target) {
        let host = (target->Ok_0).host->0;
        let i = choose|i: int| 0 <= i < host.len() && !(' ' < #[trigger] host[i] <= '~');
        assert(!(' ' < host[i] < '\u{7f}'));
    }
}

/// A URI has the parts that its fields hold.
pub proof fn law_uri_parts(uri: Uri)
    ensures
        uri.parts().path == uri.path@,
        uri.host is None ==> uri.parts().host is None,
        uri.host matches Some(host) ==> uri.parts().host == Some(host@),
        uri.query is None ==> uri.parts().query is None,
        uri.query matches Some(query) ==> uri.parts().query == Some(query@),
        target_parts(Ok(uri)) == Ok::<UriParts, InvalidUri>(uri.parts()),
        target_text(Ok(uri)) == uri.text@,
{
}

/// What is no URI has no parts, but what is wrong with it.
pub proof fn law_no_uri(err: InvalidUri)
    ensures
        target_parts(Err(err)) == Err::<UriParts, InvalidUri>(err),
{
}

/// An optional string holds the text of its string, or none.
pub proof fn law_optional_text(text: String)
    ensures
        optional_text(Some(text)) == Some(text@),
        optional_text(None) is None,
        borrowed_text(Some(&text)) == Some(text@),
        borrowed_text(None) is None,
{
}

} // verus!
