//! What holds of a call from the client to the backend and back.

use crate::error::ProxyError;
use crate::exchange::{escaped, is_visible_kind, mismatch_text, shown_kind, SWITCHING_PROTOCOLS};
use crate::headers::{
    header_entries, is_visible, is_visible_text, lemma_readable_bytes, lemma_visible_text,
    upgrade_readable, upgrade_type, value_text,
};
use crate::laws::headers::law_upgrade_recognised;
use crate::laws::law_upgrade_passes;
use crate::laws::requests::law_sent_hop_headers;
use crate::message::{Request, UriParts};
use crate::proxy::is_proxied;
use crate::text::{lower_text, trim_text};
use hyper::http::header::{InvalidHeaderValue, ToStrError};
use hyper::http::uri::InvalidUri;
use vstd::prelude::*;
use vstd::std_specs::convert::FromSpec;
use vstd::utf8::encode_utf8;

verus! {

/// A backend agrees to an upgrade with the status 101.
pub proof fn law_switching_protocols(status: u16)
    ensures
        status == SWITCHING_PROTOCOLS <==> status == 101,
{
}

/// A protocol is visible where its text is, and so is the lack of one.
pub proof fn law_visible_kind(text: Seq<char>)
    ensures
        is_visible_kind(None),
        is_visible_kind(Some(text)) == is_visible_text(text),
{
}

/// A text is quoted character by character: a backslash stands before a quotation mark
/// and a backslash, a tab is a backslash and a `t`, and any other character is itself.
pub proof fn law_escaped(text: Seq<char>, c: char)
    ensures
        escaped(Seq::empty()).len() == 0,
        c == '"' || c == '\\' ==> escaped(text.push(c)) == escaped(text).push('\\').push(c),
        c == '\t' ==> escaped(text.push(c)) == escaped(text).push('\\').push('t'),
        c != '"' && c != '\\' && c != '\t' ==> escaped(text.push(c)) == escaped(text).push(c),
{
    assert(text.push(c).drop_last() == text);
    assert(escaped(text) + seq!['\\', c] == escaped(text).push('\\').push(c));
    assert(escaped(text) + seq!['\\', 't'] == escaped(text).push('\\').push('t'));
    assert(escaped(text) + seq![c] == escaped(text).push(c));
}

/// A mismatch is told with the protocol that the backend offered first, and then the one
/// that was requested, each in quotation marks, or as none.
pub proof fn law_mismatch_text(
    offered: Option<Seq<char>>,
    requested: Option<Seq<char>>,
    kind: Seq<char>,
)
    ensures
        mismatch_text(offered, requested) == "backend tried to switch to protocol "@ + shown_kind(
            offered,
        ) + " when "@ + shown_kind(requested) + " was requested"@,
        shown_kind(Some(kind)) == "Some(\""@ + escaped(kind) + "\")"@,
        shown_kind(None) == "None"@,
{
}

/// A client that lists `upgrade` anywhere in its `connection` header has the backend
/// asked for the protocol of its `upgrade` header, byte for byte. A backend that answers
/// with the headers that it got offers what the client requested.
pub proof fn law_upgrade_reaches_backend<B>(
    request: Request<B>,
    url: Seq<char>,
    target: Result<UriParts, InvalidUri>,
    client_ip: Seq<char>,
    proxied: Request<B>,
    head: Seq<char>,
    item: Seq<char>,
    tail: Seq<char>,
)
    requires
        is_proxied(
            request,
            url,
            target,
            client_ip,
            upgrade_type(header_entries(request.headers)),
            Ok(proxied),
        ),
        upgrade_readable(header_entries(request.headers)),
        header_entries(request.headers).contains_key("connection"@),
        header_entries(request.headers).contains_key("upgrade"@),
        value_text(header_entries(request.headers)["connection"@].first()) == head + item + tail,
        head.len() > 0 ==> head.last() == ',',
        tail.len() > 0 ==> tail.first() == ',',
        !item.contains(','),
        lower_text(trim_text(item)) == "upgrade"@,
    ensures
        ({
            let came = header_entries(request.headers);
            let sent = header_entries(proxied.headers);
            &&& sent.contains_key("upgrade"@)
            &&& sent["upgrade"@] == seq![came["upgrade"@].first()]
            &&& sent.contains_key("connection"@)
            &&& sent["connection"@] == seq![encode_utf8("UPGRADE"@)]
            &&& upgrade_readable(sent)
            &&& upgrade_type(sent) == Some(value_text(came["upgrade"@].first()))
        }),
{
    let came = header_entries(request.headers);
    let kind = upgrade_type(came);
    let host = (target->Ok_0).host->0;
    law_upgrade_recognised(came, head, item, tail);
    law_upgrade_passes(came, host, client_ip);
    law_sent_hop_headers(request, url, target, client_ip, kind, proxied);
    lemma_visible_bytes(came["upgrade"@].first());
}

/// Readable bytes are the UTF-8 bytes of the text that they read as.
proof fn lemma_visible_bytes(bytes: Seq<u8>)
    requires
        is_visible(bytes),
    ensures
        encode_utf8(value_text(bytes)) == bytes,
{
    let text = value_text(bytes);
    lemma_readable_bytes(bytes);
    lemma_visible_text(text);
    let again = encode_utf8(text);
    assert(value_text(again).len() == again.len());
    assert forall|i: int| 0 <= i < bytes.len() implies again[i] == #[trigger] bytes[i] by {
        assert(value_text(again)[i] == again[i] as char);
        assert(text[i] == bytes[i] as char);
    }
    assert(again == bytes);
}

/// Errors of outside calls come out as the library's own: the one of a URI and the one
/// of a connection with what they say, the two of header values as one.
pub proof fn law_errors(
    connection: hyper::Error,
    uri: InvalidUri,
    read: ToStrError,
    write: InvalidHeaderValue,
)
    ensures
        <ProxyError as FromSpec<hyper::Error>>::obeys_from_spec(),
        <ProxyError as FromSpec<hyper::Error>>::from_spec(connection) == ProxyError::HyperError(
            connection,
        ),
        <ProxyError as FromSpec<InvalidUri>>::obeys_from_spec(),
        <ProxyError as FromSpec<InvalidUri>>::from_spec(uri) == ProxyError::InvalidUri(uri),
        <ProxyError as FromSpec<ToStrError>>::obeys_from_spec(),
        <ProxyError as FromSpec<ToStrError>>::from_spec(read) == ProxyError::ForwardHeaderError,
        <ProxyError as FromSpec<InvalidHeaderValue>>::obeys_from_spec(),
        <ProxyError as FromSpec<InvalidHeaderValue>>::from_spec(write)
            == ProxyError::ForwardHeaderError,
{
}

} // verus!
