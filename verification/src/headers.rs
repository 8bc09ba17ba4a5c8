//! Header maps: what they hold, and the rules that strip and read them.

use crate::text::{is_name, lower_char, lower_text, split, split_text, texts_of, trim, trim_text};
use hyper::header::{HeaderMap, HeaderValue};
use hyper::http::header::{InvalidHeaderValue, ToStrError};
use vstd::prelude::*;
use vstd::utf8::{encode_utf8, is_ascii_chars, is_ascii_chars_encode_utf8, valid_utf8};

verus! {

/// `hyper::HeaderMap`, the header map of the `http` crate.
#[verifier::external_type_specification]
#[verifier::external_body]
#[verifier::reject_recursive_types(T)]
pub struct ExHeaderMap<T>(HeaderMap<T>);

/// `hyper::header::HeaderValue`, a value of such a map.
#[verifier::external_type_specification]
#[verifier::external_body]
pub struct ExHeaderValue(HeaderValue);

/// A header map with fewer names than this takes another one for certain. Its hash
/// table has at most 32768 slots, and one of that size is asked to grow no sooner
/// than when a fifth of it is in use.
pub const ALWAYS_ROOM: usize = 6554;

/// The model of a header map: for each name, as the map keeps it, its values in order.
/// A name is kept in lower case.
pub type Entries = Map<Seq<char>, Seq<Seq<u8>>>;

/// What a header map holds.
pub uninterp spec fn header_entries(headers: HeaderMap) -> Map<Seq<char>, Seq<Seq<u8>>>;

/// The bytes of a header value.
pub uninterp spec fn header_bytes(value: HeaderValue) -> Seq<u8>;

/// The characters of a header name.
pub open spec fn is_name_char(c: char) -> bool {
    ||| 'a' <= c <= 'z'
    ||| 'A' <= c <= 'Z'
    ||| '0' <= c <= '9'
    ||| c == '!' || c == '#' || c == '$' || c == '%' || c == '&' || c == '\'' || c == '*'
    ||| c == '+' || c == '-' || c == '.' || c == '^' || c == '_' || c == '`' || c == '|'
    ||| c == '~'
}

/// Whether `name` can name a header.
pub open spec fn is_header_name(name: Seq<char>) -> bool {
    &&& 1 <= name.len() <= 65535
    &&& forall|i: int| 0 <= i < name.len() ==> is_name_char(#[trigger] name[i])
}

/// The character that a header map keeps for a byte of a name: the letters in lower
/// case, and zero for a byte that no name may have.
pub open spec fn stored_char(byte: u8) -> char {
    if is_name_char(byte as char) {
        lower_char(byte as char)
    } else {
        '\0'
    }
}

/// The name under which a header map looks for `name`, or nothing where it does not
/// look at all. Only a name of up to 64 bytes is turned away for a byte that no name
/// may have; in a longer one, such a byte counts as zero.
pub open spec fn stored_name(name: Seq<char>) -> Option<Seq<char>> {
    let bytes = encode_utf8(name);
    let clean = forall|i: int| 0 <= i < bytes.len() ==> is_name_char(#[trigger] bytes[i] as char);
    if 1 <= bytes.len() <= 64 && clean || 65 <= bytes.len() <= 65535 {
        Some(bytes.map_values(|byte: u8| stored_char(byte)))
    } else {
        None
    }
}

/// A header name is looked for in lower case.
pub proof fn lemma_stored_name(name: Seq<char>)
    requires
        is_header_name(name),
    ensures
        stored_name(name) == Some(lower_text(name)),
{
    assert(is_ascii_chars(name)) by {
        assert forall|i: int| 0 <= i < name.len() implies is_name_char(#[trigger] name[i]) by {}
    }
    is_ascii_chars_encode_utf8(name);
    let bytes = encode_utf8(name);
    assert forall|i: int| 0 <= i < bytes.len() implies #[trigger] bytes[i] as char == name[i] by {
        assert(is_name_char(name[i]));
        assert(name[i] as u8 == bytes[i]);
    }
    assert(stored_name(name)->0 == lower_text(name));
}

/// The bytes of a header value that is readable as text: visible ASCII, spaces and tabs.
pub open spec fn is_visible(bytes: Seq<u8>) -> bool {
    forall|i: int| 0 <= i < bytes.len() ==> (32 <= #[trigger] bytes[i] < 127 || bytes[i] == 9)
}

/// The bytes that a header value can hold: all but the control bytes, of which
/// only the tab is let through.
pub open spec fn is_header_value(bytes: Seq<u8>) -> bool {
    forall|i: int|
        0 <= i < bytes.len() ==> (32 <= #[trigger] bytes[i] && bytes[i] != 127 || bytes[i] == 9)
}

/// The text of a header value, read byte by byte.
pub open spec fn value_text(bytes: Seq<u8>) -> Seq<char> {
    bytes.map_values(|b: u8| b as char)
}

/// Whether a text is made of visible ASCII, spaces and tabs.
pub open spec fn is_visible_text(text: Seq<char>) -> bool {
    forall|i: int| 0 <= i < text.len() ==> ' ' <= #[trigger] text[i] <= '~' || text[i] == '\t'
}

/// The UTF-8 bytes of a visible text are readable, and read as that text.
pub proof fn lemma_visible_text(text: Seq<char>)
    requires
        is_visible_text(text),
    ensures
        is_visible(encode_utf8(text)),
        is_header_value(encode_utf8(text)),
        value_text(encode_utf8(text)) == text,
{
    assert(is_ascii_chars(text));
    is_ascii_chars_encode_utf8(text);
    let bytes = encode_utf8(text);
    assert forall|i: int| 0 <= i < bytes.len() implies #[trigger] bytes[i] as char == text[i] by {
        assert(text[i] as u8 == bytes[i]);
    }
    assert(value_text(bytes) == text);
}

/// Readable bytes read as a visible text.
pub proof fn lemma_readable_bytes(bytes: Seq<u8>)
    requires
        is_visible(bytes),
    ensures
        is_visible_text(value_text(bytes)),
{
    let text = value_text(bytes);
    assert forall|i: int| 0 <= i < text.len() implies ' ' <= #[trigger] text[i] <= '~' || text[i]
        == '\t' by {
        assert(text[i] == bytes[i] as char);
    }
}

/// `HeaderValue::to_str`: gives the text of a value whose bytes are all visible
/// ASCII, spaces or tabs, and an error for every other value.
pub assume_specification[ HeaderValue::to_str ](value: &HeaderValue) -> (res: Result<
    &str,
    ToStrError,
>)
    ensures
        res is Ok <==> is_visible(header_bytes(*value)),
        res matches Ok(text) ==> text@ == value_text(header_bytes(*value)),
;

/// `HeaderValue::as_bytes`: gives the bytes of a value.
pub assume_specification[ HeaderValue::as_bytes ](value: &HeaderValue) -> (bytes: &[u8])
    ensures
        bytes@ == header_bytes(*value),
;

/// `HeaderValue::from_str`: makes a value of the UTF-8 bytes of `src`, or fails
/// where one of them is a control byte other than the tab.
pub assume_specification[ HeaderValue::from_str ](src: &str) -> (res: Result<
    HeaderValue,
    InvalidHeaderValue,
>)
    ensures
        res is Ok <==> is_header_value(encode_utf8(src@)),
        res matches Ok(value) ==> header_bytes(value) == encode_utf8(src@),
;

/// `HeaderValue::from_static`: makes a value of the bytes of `src`. It panics
/// where one of them is not visible ASCII, a space or a tab.
pub assume_specification[ HeaderValue::from_static ](src: &'static str) -> (value: HeaderValue)
    requires
        is_visible(encode_utf8(src@)),
    ensures
        header_bytes(value) == encode_utf8(src@),
;

/// Whether there is a header under `name`, whatever the case of its letters.
pub open spec fn has_header(entries: Entries, name: Seq<char>) -> bool {
    stored_name(name) matches Some(stored) && entries.contains_key(stored)
}

/// The first value under `name`, whatever the case of its letters.
pub open spec fn first_value(entries: Entries, name: Seq<char>) -> Seq<u8> {
    entries[stored_name(name)->0].first()
}

/// `HeaderMap::get`: the first value under `name`, whatever the case of its
/// letters. A text that no header can have for its name finds nothing up to 64
/// bytes. A longer one finds what is kept under it with zeros for the bytes that no
/// name may have. The map hashes a longer text byte by byte and a name that it keeps
/// at once, and relies on the two hashes being the same.
#[verifier::external_body]
pub(crate) fn get_header<'a>(headers: &'a HeaderMap, name: &str) -> (value: Option<&'a HeaderValue>)
    ensures
        value is Some <==> has_header(header_entries(*headers), name@),
        value matches Some(v) ==> header_bytes(*v) == first_value(header_entries(*headers), name@),
{
    headers.get(name)
}

/// `HeaderMap::remove`: drops every value under `name`, whatever the case of its
/// letters. A text that no header can have for its name leaves the map as it is up to
/// 64 bytes. A longer one drops what is kept under it with zeros for the bytes that
/// no name may have.
#[verifier::external_body]
pub(crate) fn remove_header(headers: &mut HeaderMap, name: &str)
    ensures
        header_entries(*final(headers)) == match stored_name(name@) {
            Some(stored) => header_entries(*old(headers)).remove(stored),
            None => header_entries(*old(headers)),
        },
{
    headers.remove(name);
}

/// `HeaderMap::try_insert`: puts `value` under `name` in place of all that was
/// there. It panics where no header can have that name. A map whose hash table
/// cannot grow further refuses the value and keeps what it holds. When that happens
/// depends on how the table has filled, but never below `ALWAYS_ROOM` names.
#[verifier::external_body]
pub(crate) fn insert_header(headers: &mut HeaderMap, name: &'static str, value: HeaderValue) -> (ok:
    bool)
    requires
        is_header_name(name@),
    ensures
        ok ==> header_entries(*final(headers)) == header_entries(*old(headers)).insert(
            lower_text(name@),
            seq![header_bytes(value)],
        ),
        !ok ==> header_entries(*final(headers)) == header_entries(*old(headers)),
        header_entries(*old(headers)).dom().len() < ALWAYS_ROOM ==> ok,
        header_entries(*final(headers)).dom().finite(),
{
    headers.try_insert(name, value).is_ok()
}

/// `HeaderMap::keys_len`: how many names a header map holds.
#[verifier::external_body]
pub(crate) fn count_names(headers: &HeaderMap) -> (count: usize)
    ensures
        count == header_entries(*headers).dom().len(),
{
    headers.keys_len()
}

/// `std::str::from_utf8`: whether `bytes` are UTF-8.
#[verifier::external_body]
pub(crate) fn is_utf8(bytes: &[u8]) -> (res: bool)
    ensures
        res == valid_utf8(bytes@),
{
    std::str::from_utf8(bytes).is_ok()
}

/// The headers that concern a single connection and are never passed on.
pub open spec fn is_hop_name(name: Seq<char>) -> bool {
    ||| name == "connection"@
    ||| name == "te"@
    ||| name == "trailer"@
    ||| name == "keep-alive"@
    ||| name == "proxy-connection"@
    ||| name == "proxy-authenticate"@
    ||| name == "proxy-authorization"@
    ||| name == "transfer-encoding"@
    ||| name == "upgrade"@
}

/// A hop header's name is a header name in lower case.
pub proof fn lemma_hop_names(name: Seq<char>)
    requires
        is_hop_name(name),
    ensures
        is_header_name(name),
        lower_text(name) == name,
        stored_name(name) == Some(name),
{
    reveal_strlit("connection");
    reveal_strlit("te");
    reveal_strlit("trailer");
    reveal_strlit("keep-alive");
    reveal_strlit("proxy-connection");
    reveal_strlit("proxy-authenticate");
    reveal_strlit("proxy-authorization");
    reveal_strlit("transfer-encoding");
    reveal_strlit("upgrade");
    assert(lower_text(name) == name);
    lemma_stored_name(name);
}

/// The names beside the hop headers that are read or set in a request are header
/// names in lower case, and differ from those.
pub proof fn lemma_other_names()
    ensures
        is_header_name("host"@),
        is_header_name("x-forwarded-for"@),
        lower_text("host"@) == "host"@,
        lower_text("x-forwarded-for"@) == "x-forwarded-for"@,
        stored_name("x-forwarded-for"@) == Some("x-forwarded-for"@),
        !is_hop_name("host"@),
        !is_hop_name("x-forwarded-for"@),
        "host"@ != "x-forwarded-for"@,
        "te"@ != "upgrade"@,
        "te"@ != "connection"@,
        "upgrade"@ != "connection"@,
{
    reveal_strlit("host");
    reveal_strlit("x-forwarded-for");
    reveal_strlit("connection");
    reveal_strlit("te");
    reveal_strlit("trailer");
    reveal_strlit("keep-alive");
    reveal_strlit("proxy-connection");
    reveal_strlit("proxy-authenticate");
    reveal_strlit("proxy-authorization");
    reveal_strlit("transfer-encoding");
    reveal_strlit("upgrade");
    assert(lower_text("host"@) == "host"@);
    assert(lower_text("x-forwarded-for"@) == "x-forwarded-for"@);
    lemma_stored_name("x-forwarded-for"@);
    assert("host"@.len() == 4 && "x-forwarded-for"@.len() == 15);
    assert("connection"@.len() == 10 && "te"@.len() == 2 && "upgrade"@.len() == 7);
}

/// `entries` without the hop headers.
pub open spec fn without_hop(entries: Entries) -> Entries {
    entries.remove_keys(Set::new(|name: Seq<char>| is_hop_name(name)))
}

/// Whether one of the comma-separated items of `text` is `name`, whatever the
/// case of its letters.
pub open spec fn lists_name(text: Seq<char>, name: Seq<char>) -> bool {
    exists|i: int|
        0 <= i < split_text(text, ',').len() && lower_text(
            trim_text(#[trigger] split_text(text, ',')[i]),
        ) == name
}

/// Whether `stored` is the name under which a header map looks for one of `items`,
/// trimmed.
pub open spec fn is_listed(items: Seq<Seq<char>>, stored: Seq<char>) -> bool {
    exists|i: int|
        0 <= i < items.len() && stored_name(trim_text(#[trigger] items[i])) == Some(stored)
}

/// The names under which a header map looks for the comma-separated items of `text`.
pub open spec fn listed_names(text: Seq<char>) -> Set<Seq<char>> {
    Set::new(|stored: Seq<char>| is_listed(split_text(text, ','), stored))
}

/// Whether the header `name` is missing or its first value is readable as text.
pub open spec fn is_readable(entries: Entries, name: Seq<char>) -> bool {
    entries.contains_key(name) ==> is_visible(entries[name].first())
}

/// Whether there is a header `name` and its first value lists `item`.
pub open spec fn header_lists(entries: Entries, name: Seq<char>, item: Seq<char>) -> bool {
    entries.contains_key(name) && lists_name(value_text(entries[name].first()), item)
}

/// `entries` without the headers that the `connection` header lists.
pub open spec fn without_listed(entries: Entries) -> Entries {
    if entries.contains_key("connection"@) {
        entries.remove_keys(listed_names(value_text(entries["connection"@].first())))
    } else {
        entries
    }
}

/// The protocol that the headers ask to upgrade to: the `upgrade` header, where
/// the `connection` header lists it.
pub open spec fn upgrade_type(entries: Entries) -> Option<Seq<char>> {
    if header_lists(entries, "connection"@, "upgrade"@) && entries.contains_key("upgrade"@) {
        Some(value_text(entries["upgrade"@].first()))
    } else {
        None
    }
}

/// Whether the headers that decide on an upgrade are readable as text.
pub open spec fn upgrade_readable(entries: Entries) -> bool {
    &&& is_readable(entries, "connection"@)
    &&& header_lists(entries, "connection"@, "upgrade"@) ==> is_readable(entries, "upgrade"@)
}

/// Removes the hop headers.
pub fn remove_hop_headers(headers: &mut HeaderMap)
    ensures
        header_entries(*final(headers)) == without_hop(header_entries(*old(headers))),
{
    proof {
        assert forall|name: Seq<char>| is_hop_name(name) implies #[trigger] stored_name(name)
            == Some(name) by {
            lemma_hop_names(name);
        }
    }
    remove_header(headers, "connection");
    remove_header(headers, "te");
    remove_header(headers, "trailer");
    remove_header(headers, "keep-alive");
    remove_header(headers, "proxy-connection");
    remove_header(headers, "proxy-authenticate");
    remove_header(headers, "proxy-authorization");
    remove_header(headers, "transfer-encoding");
    remove_header(headers, "upgrade");
    assert(header_entries(*headers) =~= without_hop(header_entries(*old(headers))));
}

/// Whether one of the comma-separated items of `text` is `name`, which is in
/// lower case.
pub fn has_item(text: &str, name: &str) -> (res: bool)
    ensures
        res == lists_name(text@, name@),
{
    let items = split(text, ',');
    let mut i: usize = 0;
    while i < items.len()
        invariant
            texts_of(items@) == split_text(text@, ','),
            i <= items.len(),
            forall|j: int|
                0 <= j < i ==> lower_text(trim_text(#[trigger] split_text(text@, ',')[j])) != name@,
        decreases items.len() - i,
    {
        assert(texts_of(items@)[i as int] == items@[i as int]@);
        if is_name(trim(items[i]), name) {
            return true;
        }
        i = i + 1;
    }
    assert(texts_of(items@).len() == items.len());
    false
}

/// The first value under `name` as text: `None` where it is not readable,
/// `Some(None)` where there is no such header.
pub fn header_text(headers: &HeaderMap, name: &str) -> (res: Option<Option<String>>)
    ensures
        ({
            let entries = header_entries(*headers);
            let found = has_header(entries, name@);
            let value = first_value(entries, name@);
            if !found {
                res == Some(None::<String>)
            } else if is_visible(value) {
                res matches Some(Some(text)) && text@ == value_text(value)
            } else {
                res is None
            }
        }),
{
    match get_header(headers, name) {
        None => Some(None),
        Some(value) => match value.to_str() {
            Ok(text) => Some(Some(text.to_owned())),
            Err(_) => None,
        },
    }
}

/// The protocol that the headers ask to upgrade to, or `None` where a header that
/// decides on it is not readable as text.
pub fn checked_upgrade_type(headers: &HeaderMap) -> (res: Option<Option<String>>)
    ensures
        res is Some <==> upgrade_readable(header_entries(*headers)),
        res matches Some(kind) ==> (match upgrade_type(header_entries(*headers)) {
            Some(text) => kind matches Some(k) && k@ == text,
            None => kind is None,
        }),
{
    proof {
        lemma_hop_names("connection"@);
        lemma_hop_names("upgrade"@);
    }
    match header_text(headers, "connection") {
        None => None,
        Some(None) => Some(None),
        Some(Some(connection)) => {
            if has_item(connection.as_str(), "upgrade") {
                header_text(headers, "upgrade")
            } else {
                Some(None)
            }
        },
    }
}

/// The protocol that the headers ask to upgrade to.
pub fn get_upgrade_type(headers: &HeaderMap) -> (kind: Option<String>)
    requires
        upgrade_readable(header_entries(*headers)),
    ensures
        match upgrade_type(header_entries(*headers)) {
            Some(text) => kind matches Some(k) && k@ == text,
            None => kind is None,
        },
{
    checked_upgrade_type(headers).unwrap()
}

/// One more item lists at most the one name under which it is looked for.
proof fn lemma_listed_next(items: Seq<Seq<char>>, k: int)
    requires
        0 <= k < items.len(),
    ensures
        forall|stored: Seq<char>| #[trigger]
            is_listed(items.take(k + 1), stored) <==> is_listed(items.take(k), stored)
                || stored_name(trim_text(items[k])) == Some(stored),
{
    let fewer = items.take(k);
    let more = items.take(k + 1);
    assert forall|stored: Seq<char>| #[trigger]
        is_listed(more, stored) <==> is_listed(fewer, stored) || stored_name(trim_text(items[k]))
            == Some(stored) by {
        if is_listed(fewer, stored) {
            let i = choose|i: int|
                0 <= i < k && stored_name(trim_text(#[trigger] fewer[i])) == Some(stored);
            assert(more[i] == fewer[i]);
        }
        if is_listed(more, stored) {
            let i = choose|i: int|
                0 <= i < k + 1 && stored_name(trim_text(#[trigger] more[i])) == Some(stored);
            if i < k {
                assert(fewer[i] == more[i]);
            }
        }
        assert(more[k] == items[k]);
    }
}

/// Removes the headers that the `connection` header lists, and says whether it
/// did: it leaves the map as it is where that header is not readable as text.
pub fn checked_remove_connection_headers(headers: &mut HeaderMap) -> (done: bool)
    ensures
        done == is_readable(header_entries(*old(headers)), "connection"@),
        done ==> header_entries(*final(headers)) == without_listed(header_entries(*old(headers))),
        !done ==> header_entries(*final(headers)) == header_entries(*old(headers)),
{
    proof {
        lemma_hop_names("connection"@);
    }
    match header_text(headers, "connection") {
        None => false,
        Some(None) => true,
        Some(Some(connection)) => {
            let ghost before = header_entries(*headers);
            let ghost pieces = split_text(connection@, ',');
            let items = split(connection.as_str(), ',');
            let mut i: usize = 0;
            assert(before =~= before.remove_keys(
                Set::new(|n: Seq<char>| is_listed(pieces.take(0), n)),
            ));
            while i < items.len()
                invariant
                    texts_of(items@) == pieces,
                    i <= items.len(),
                    header_entries(*headers) == before.remove_keys(
                        Set::new(|n: Seq<char>| is_listed(pieces.take(i as int), n)),
                    ),
                decreases items.len() - i,
            {
                assert(texts_of(items@)[i as int] == items@[i as int]@);
                let name = trim(items[i]);
                remove_header(headers, name);
                proof {
                    lemma_listed_next(pieces, i as int);
                    assert(header_entries(*headers) =~= before.remove_keys(
                        Set::new(|n: Seq<char>| is_listed(pieces.take(i + 1), n)),
                    ));
                }
                i = i + 1;
            }
            proof {
                assert(items.len() == texts_of(items@).len());
                assert(pieces.take(i as int) == pieces);
                assert(header_entries(*headers) =~= without_listed(before));
            }
            true
        },
    }
}

/// Removes the headers that the `connection` header lists.
pub fn remove_connection_headers(headers: &mut HeaderMap)
    requires
        is_readable(header_entries(*old(headers)), "connection"@),
    ensures
        header_entries(*final(headers)) == without_listed(header_entries(*old(headers))),
{
    checked_remove_connection_headers(headers);
}

} // verus!
