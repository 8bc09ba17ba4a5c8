//! What holds of forwarding as a whole.

pub mod calls;
pub mod headers;
pub mod queries;
pub mod requests;

use crate::exchange::is_visible_kind;
use crate::forward::{
    added_items, base_of, forwarded_query, forwarded_url, item_key, item_value, query_has_key,
    query_of, without_last,
};
use crate::headers::{
    header_lists, is_header_name, is_hop_name, is_listed, is_name_char, is_readable, is_visible,
    lemma_other_names, lemma_readable_bytes, lemma_stored_name, lemma_visible_text, listed_names,
    lists_name, stored_char, stored_name, upgrade_readable, upgrade_type, value_text, without_hop,
    without_listed, Entries,
};
use crate::proxy::proxied_headers;
use crate::text::{
    is_whitespace, law_split_first, law_split_joins, law_split_last, law_split_lower,
    law_split_subset, law_split_whole, law_trim_lower, law_trim_whole, lower_char, lower_text,
    split_text, trim_text,
};
use vstd::prelude::*;
use vstd::utf8::{encode_utf8, encode_utf8_decode_utf8, is_ascii_chars, is_ascii_chars_encode_utf8};

verus! {

/// No hop header passes, and every other header passes as it is.
pub proof fn law_strip(entries: Entries, name: Seq<char>)
    ensures
        is_hop_name(name) ==> !without_hop(entries).contains_key(name),
        !is_hop_name(name) ==> without_hop(entries).contains_key(name) == entries.contains_key(
            name,
        ),
        !is_hop_name(name) && entries.contains_key(name) ==> without_hop(entries)[name]
            == entries[name],
{
}

/// Stripping a second time changes nothing.
pub proof fn law_strip_twice(entries: Entries)
    ensures
        without_hop(without_hop(entries)) == without_hop(entries),
{
    assert(without_hop(without_hop(entries)) =~= without_hop(entries));
}

/// After the hop headers are gone, no header is left that lists others: headers
/// that only the `connection` header named do pass.
pub proof fn law_nothing_listed_after_strip(entries: Entries)
    ensures
        without_listed(without_hop(entries)) == without_hop(entries),
{
}

/// A header name in lower case is among the names that a list stands for just where
/// it is one of the list's items, whatever the case of its letters.
pub proof fn law_listed_names(text: Seq<char>, name: Seq<char>)
    requires
        is_header_name(name),
        lower_text(name) == name,
    ensures
        listed_names(text).contains(name) == lists_name(text, name),
{
    let items = split_text(text, ',');
    if lists_name(text, name) {
        let i = choose|i: int|
            0 <= i < items.len() && lower_text(trim_text(#[trigger] items[i])) == name;
        let item = trim_text(items[i]);
        assert forall|k: int| 0 <= k < item.len() implies is_name_char(#[trigger] item[k]) by {
            assert(is_name_char(name[k]));
            assert(name[k] == lower_text(item)[k]);
        }
        lemma_stored_name(item);
        assert(is_listed(items, name));
    }
    if is_listed(items, name) {
        let i = choose|i: int|
            0 <= i < items.len() && stored_name(trim_text(#[trigger] items[i])) == Some(name);
        lemma_stored_only(trim_text(items[i]), name);
    }
}

/// Only a text that differs from a header name at most by the case of its letters is
/// looked for under that name.
proof fn lemma_stored_only(text: Seq<char>, name: Seq<char>)
    requires
        is_header_name(name),
        stored_name(text) == Some(name),
    ensures
        lower_text(text) == name,
{
    let bytes = encode_utf8(text);
    let chars = value_text(bytes);
    assert forall|k: int| 0 <= k < bytes.len() implies is_name_char(#[trigger] bytes[k] as char)
        && lower_char(bytes[k] as char) == name[k] by {
        assert(name[k] == stored_char(bytes[k]));
        assert(is_name_char(name[k]));
    }
    assert(is_ascii_chars(chars)) by {
        assert forall|k: int| 0 <= k < chars.len() implies is_name_char(#[trigger] chars[k]) by {
            assert(chars[k] == bytes[k] as char);
        }
    }
    is_ascii_chars_encode_utf8(chars);
    assert(encode_utf8(chars) == bytes) by {
        assert forall|k: int| 0 <= k < bytes.len() implies encode_utf8(chars)[k]
            == #[trigger] bytes[k] by {
            assert(is_name_char(bytes[k] as char));
            assert(chars[k] as u8 == encode_utf8(chars)[k]);
        }
    }
    encode_utf8_decode_utf8(text);
    encode_utf8_decode_utf8(chars);
    assert(text == chars);
    assert(lower_text(text) == name);
}

/// The `connection` header drops the headers that it lists, whatever the case of the
/// letters, and every other header stays as it is.
pub proof fn law_listed_headers_go(entries: Entries, name: Seq<char>)
    requires
        is_header_name(name),
        lower_text(name) == name,
    ensures
        without_listed(entries).contains_key(name) <==> entries.contains_key(name)
            && !header_lists(entries, "connection"@, name),
        without_listed(entries).contains_key(name) ==> without_listed(entries)[name]
            == entries[name],
{
    if entries.contains_key("connection"@) {
        law_listed_names(value_text(entries["connection"@].first()), name);
    }
}

/// Of the hop headers a forwarded request has at most three, and only as the proxy
/// sets them: `te` with the one value `trailers` where the client's listed it, and
/// `upgrade` and `connection` where the connection is to be upgraded.
pub proof fn law_request_hop_headers(
    entries: Entries,
    host: Seq<char>,
    client_ip: Seq<char>,
    upgrade: Option<Seq<char>>,
    name: Seq<char>,
)
    requires
        is_hop_name(name),
    ensures
        ({
            let proxied = proxied_headers(entries, host, client_ip, upgrade);
            &&& proxied.contains_key(name) <==> {
                ||| name == "te"@ && header_lists(entries, "te"@, "trailers"@)
                ||| (name == "upgrade"@ || name == "connection"@) && upgrade is Some
            }
            &&& header_lists(entries, "te"@, "trailers"@) ==> proxied["te"@] == seq![
                encode_utf8("trailers"@),
            ]
            &&& upgrade matches Some(kind) ==> proxied["upgrade"@] == seq![encode_utf8(kind)]
                && proxied["connection"@] == seq![encode_utf8("UPGRADE"@)]
        }),
{
    lemma_other_names();
}

/// A forwarded request names the host of the URI that it goes to, and no other.
pub proof fn law_request_host(
    entries: Entries,
    host: Seq<char>,
    client_ip: Seq<char>,
    upgrade: Option<Seq<char>>,
)
    ensures
        proxied_headers(entries, host, client_ip, upgrade).contains_key("host"@),
        proxied_headers(entries, host, client_ip, upgrade)["host"@] == seq![encode_utf8(host)],
{
    lemma_other_names();
}

/// A forwarded request says whom it is forwarded for: the client, unless an earlier
/// proxy has said so already, whose word then stands.
pub proof fn law_request_forwarded_for(
    entries: Entries,
    host: Seq<char>,
    client_ip: Seq<char>,
    upgrade: Option<Seq<char>>,
)
    ensures
        ({
            let proxied = proxied_headers(entries, host, client_ip, upgrade);
            &&& proxied.contains_key("x-forwarded-for"@)
            &&& proxied["x-forwarded-for"@] == if entries.contains_key("x-forwarded-for"@) {
                entries["x-forwarded-for"@]
            } else {
                seq![encode_utf8(client_ip)]
            }
        }),
{
    lemma_other_names();
}

/// Every other header of a request passes as it is, and none is added.
pub proof fn law_request_other_headers(
    entries: Entries,
    host: Seq<char>,
    client_ip: Seq<char>,
    upgrade: Option<Seq<char>>,
    name: Seq<char>,
)
    requires
        !is_hop_name(name),
        name != "host"@,
        name != "x-forwarded-for"@,
    ensures
        ({
            let proxied = proxied_headers(entries, host, client_ip, upgrade);
            &&& proxied.contains_key(name) == entries.contains_key(name)
            &&& entries.contains_key(name) ==> proxied[name] == entries[name]
        }),
{
}

/// A value of one word, in visible ASCII, lists that word alone.
proof fn lemma_lists_word(word: Seq<char>, name: Seq<char>)
    requires
        word.len() > 0,
        forall|i: int| 0 <= i < word.len() ==> '-' < #[trigger] word[i] <= '~',
    ensures
        is_visible(encode_utf8(word)),
        lists_name(value_text(encode_utf8(word)), name) <==> lower_text(word) == name,
{
    lemma_visible_text(word);
    assert(!word.contains(','));
    law_split_whole(word, ',');
    assert(!is_whitespace(word[0]) && !is_whitespace(word[word.len() - 1]));
    law_trim_whole(word);
    let pieces = split_text(value_text(encode_utf8(word)), ',');
    assert(pieces == seq![word]);
    assert(pieces[0] == word);
}

/// The protocol of an upgrade reaches the backend as it is given: its headers ask for
/// just that one, and for none where none is given.
pub proof fn law_upgrade_asked(
    entries: Entries,
    host: Seq<char>,
    client_ip: Seq<char>,
    upgrade: Option<Seq<char>>,
)
    requires
        is_visible_kind(upgrade),
    ensures
        ({
            let proxied = proxied_headers(entries, host, client_ip, upgrade);
            &&& upgrade_readable(proxied)
            &&& upgrade_type(proxied) == upgrade
        }),
{
    lemma_other_names();
    law_request_hop_headers(entries, host, client_ip, upgrade, "connection"@);
    law_request_hop_headers(entries, host, client_ip, upgrade, "upgrade"@);
    if let Some(kind) = upgrade {
        lemma_visible_text(kind);
        reveal_strlit("UPGRADE");
        reveal_strlit("upgrade");
        assert(lower_text("UPGRADE"@) == "upgrade"@);
        lemma_lists_word("UPGRADE"@, "upgrade"@);
    }
}

/// The protocol that a client asks to upgrade to is the one that the backend is
/// asked for, and a client that asks for none has none asked for.
pub proof fn law_upgrade_passes(entries: Entries, host: Seq<char>, client_ip: Seq<char>)
    requires
        upgrade_readable(entries),
    ensures
        ({
            let proxied = proxied_headers(entries, host, client_ip, upgrade_type(entries));
            &&& upgrade_readable(proxied)
            &&& upgrade_type(proxied) == upgrade_type(entries)
        }),
{
    if upgrade_type(entries) is Some {
        lemma_readable_bytes(entries["upgrade"@].first());
    }
    law_upgrade_asked(entries, host, client_ip, upgrade_type(entries));
}

/// Trailers that a client accepts are accepted by the backend's client too.
pub proof fn law_trailers_pass(
    entries: Entries,
    host: Seq<char>,
    client_ip: Seq<char>,
    upgrade: Option<Seq<char>>,
)
    ensures
        ({
            let proxied = proxied_headers(entries, host, client_ip, upgrade);
            &&& is_readable(proxied, "te"@)
            &&& header_lists(proxied, "te"@, "trailers"@) == header_lists(
                entries,
                "te"@,
                "trailers"@,
            )
        }),
{
    lemma_other_names();
    law_request_hop_headers(entries, host, client_ip, upgrade, "te"@);
    if header_lists(entries, "te"@, "trailers"@) {
        reveal_strlit("trailers");
        assert(lower_text("trailers"@) == "trailers"@);
        lemma_lists_word("trailers"@, "trailers"@);
    }
}

/// A second proxy in front of the same backend changes no header any more.
pub proof fn law_proxied_twice(
    entries: Entries,
    host: Seq<char>,
    client_ip: Seq<char>,
    proxy_ip: Seq<char>,
    upgrade: Option<Seq<char>>,
)
    ensures
        ({
            let proxied = proxied_headers(entries, host, client_ip, upgrade);
            proxied_headers(proxied, host, proxy_ip, upgrade) == proxied
        }),
{
    lemma_other_names();
    let once = proxied_headers(entries, host, client_ip, upgrade);
    law_trailers_pass(entries, host, client_ip, upgrade);
    law_request_forwarded_for(entries, host, client_ip, upgrade);
    law_request_host(entries, host, client_ip, upgrade);
    assert(proxied_headers(once, host, proxy_ip, upgrade) =~= once);
}

/// The case of the letters in a list of names does not matter.
pub proof fn law_lists_any_case(text: Seq<char>, name: Seq<char>)
    ensures
        lists_name(lower_text(text), name) == lists_name(text, name),
{
    let plain = split_text(text, ',');
    let folded = split_text(lower_text(text), ',');
    law_split_lower(text, ',');
    assert forall|i: int| 0 <= i < plain.len() implies lower_text(trim_text(#[trigger] folded[i]))
        == lower_text(trim_text(plain[i])) by {
        assert(folded[i] == lower_text(plain[i]));
        law_trim_lower(plain[i]);
        assert(lower_text(lower_text(trim_text(plain[i]))) == lower_text(trim_text(plain[i])));
    }
    if lists_name(text, name) {
        let i = choose|i: int|
            0 <= i < plain.len() && lower_text(trim_text(#[trigger] plain[i])) == name;
        assert(lower_text(trim_text(folded[i])) == name);
    }
    if lists_name(lower_text(text), name) {
        let i = choose|i: int|
            0 <= i < folded.len() && lower_text(trim_text(#[trigger] folded[i])) == name;
        assert(lower_text(trim_text(plain[i])) == name);
    }
}

/// Whatever the queries are, a request goes to its path under the forward URL.
pub proof fn law_forward_to_path(
    forward_url: Seq<char>,
    path: Seq<char>,
    query: Option<Seq<char>>,
)
    ensures
        (base_of(forward_url) + path).is_prefix_of(forwarded_url(forward_url, path, query)),
{
    let target = base_of(forward_url) + path;
    assert(forwarded_url(forward_url, path, query).subrange(0, target.len() as int) == target);
}

/// Where the forward URL has no query, a request keeps its own, and one without a
/// query gets none.
pub proof fn law_forward_own_query(
    forward_url: Seq<char>,
    path: Seq<char>,
    query: Option<Seq<char>>,
)
    requires
        query_of(forward_url).len() == 0,
    ensures
        forwarded_url(forward_url, path, query) == match query {
            Some(q) if q.len() > 0 => base_of(forward_url) + path + seq!['?'] + q,
            _ => base_of(forward_url) + path,
        },
{
    let target = base_of(forward_url) + path;
    assert(target + Seq::<char>::empty() == target);
    if let Some(q) = query {
        assert(target + (seq!['?'] + q) == target + seq!['?'] + q);
    }
}

/// The query of the forward URL always goes first, but for a `&` at its end that
/// nothing follows.
pub proof fn law_forward_query_first(forward_query: Seq<char>, request_query: Seq<char>)
    requires
        forward_query.len() > 0,
    ensures
        without_last(seq!['?'] + forward_query, '&').is_prefix_of(
            forwarded_query(forward_query, request_query),
        ),
{
    let first = seq!['?'] + forward_query;
    let added = added_items(forward_query, split_text(request_query, '&'));
    let whole = forwarded_query(forward_query, request_query);
    let kept = without_last(first, '&');
    if added.len() == 0 {
        assert(first + added == first);
    }
    assert(whole.subrange(0, kept.len() as int) == kept);
}

/// The items of a query that have the given key, in order.
pub open spec fn items_with_key(query: Seq<char>, key: Seq<char>) -> Seq<Seq<char>> {
    split_text(query, '&').filter(|item: Seq<char>| item_key(item) == key)
}

/// An item as it is added behind a query: its key, a `=`, and its value.
pub open spec fn added_item(item: Seq<char>) -> Seq<char> {
    item_key(item).push('=') + item_value(item)
}

/// An item that is added has the same key, and no separator in it.
pub proof fn lemma_added_item(item: Seq<char>)
    requires
        !item.contains('&'),
    ensures
        item_key(added_item(item)) == item_key(item),
        !added_item(item).contains('&'),
{
    let parts = split_text(item, '=');
    law_split_joins(item, '=');
    law_split_subset(item, '=', '&');
    assert(!parts[0].contains('='));
    law_split_first(item_key(item), item_value(item), '=');
    let added = added_item(item);
    if added.contains('&') {
        let k = choose|k: int| 0 <= k < added.len() && added[k] == '&';
        if k < item_key(item).len() {
            assert(parts[0][k] == '&');
        } else {
            assert(item_value(item)[k - item_key(item).len() - 1] == '&');
            assert(parts[1].contains('&'));
        }
    }
}

/// Behind a query that has `key`, no item with that key is added; behind one that has
/// not, all of them are.
proof fn lemma_items_added(query: Seq<char>, items: Seq<Seq<char>>, key: Seq<char>)
    requires
        forall|i: int| 0 <= i < items.len() ==> !(#[trigger] items[i]).contains('&'),
    ensures
        items_with_key(query + added_items(query, items), key) == if query_has_key(query, key) {
            items_with_key(query, key)
        } else {
            items.filter(|item: Seq<char>| item_key(item) == key).map_values(
                |item: Seq<char>| added_item(item),
            )
        },
    decreases items.len(),
{
    reveal(Seq::filter);
    let pred = |item: Seq<char>| item_key(item) == key;
    let form = |item: Seq<char>| added_item(item);
    if items.len() == 0 {
        assert(query + added_items(query, items) == query);
        assert(items.filter(pred).map_values(form) == Seq::<Seq<char>>::empty());
        if !query_has_key(query, key) {
            let own = split_text(query, '&');
            assert(items_with_key(query, key) == Seq::<Seq<char>>::empty()) by {
                own.lemma_all_neg_filter_empty(pred);
            }
        }
    } else {
        let fewer = items.drop_last();
        let item = items.last();
        assert(item == items[items.len() - 1]);
        assert forall|i: int| 0 <= i < fewer.len() implies !(#[trigger] fewer[i]).contains('&') by {
            assert(fewer[i] == items[i]);
        }
        lemma_items_added(query, fewer, key);
        let before = query + added_items(query, fewer);
        let after = query + added_items(query, items);
        if query_has_key(query, item_key(item)) {
            assert(after == before);
        } else {
            lemma_added_item(item);
            assert(after == before.push('&') + added_item(item));
            law_split_last(before, added_item(item), '&');
            split_text(before, '&').lemma_filter_push(added_item(item), pred);
        }
        if pred(item) {
            assert(fewer.filter(pred).push(item).map_values(form)
                == fewer.filter(pred).map_values(form).push(added_item(item)));
        }
    }
}

/// A separator at the end of a query ends no item that has a key.
proof fn lemma_items_cut(query: Seq<char>, key: Seq<char>)
    requires
        key.len() > 0,
    ensures
        items_with_key(without_last(query, '&'), key) == items_with_key(query, key),
{
    if query.len() > 0 && query.last() == '&' {
        let pred = |item: Seq<char>| item_key(item) == key;
        let pieces = split_text(query.drop_last(), '&');
        assert(split_text(query, '&') == pieces.push(Seq::<char>::empty()));
        assert(item_key(Seq::<char>::empty()) == Seq::<char>::empty());
        pieces.lemma_filter_push(Seq::<char>::empty(), pred);
    }
}

/// The items of the query that a request is forwarded with, for a key that is not
/// empty, where the forward URL has a query.
proof fn lemma_forwarded_items(
    forward_query: Seq<char>,
    request_query: Seq<char>,
    key: Seq<char>,
)
    requires
        forward_query.len() > 0,
        key.len() > 0,
    ensures
        forwarded_query(forward_query, request_query).first() == '?',
        items_with_key(forwarded_query(forward_query, request_query).drop_first(), key)
            == if query_has_key(forward_query, key) {
            items_with_key(forward_query, key)
        } else {
            items_with_key(request_query, key).map_values(|item: Seq<char>| added_item(item))
        },
{
    let items = split_text(request_query, '&');
    let whole = forward_query + added_items(forward_query, items);
    let full = seq!['?'] + forward_query + added_items(forward_query, items);
    law_split_joins(request_query, '&');
    lemma_items_added(forward_query, items, key);
    lemma_items_cut(whole, key);
    assert(full.drop_first() == whole);
    assert(without_last(full, '&').drop_first() == without_last(whole, '&'));
}

/// The forward URL's items win: those with a key that its query has, and that is not
/// empty, are just its own in the query that a request is forwarded with, as they
/// stand and in order.
pub proof fn law_forward_items_win(
    forward_query: Seq<char>,
    request_query: Seq<char>,
    key: Seq<char>,
)
    requires
        key.len() > 0,
        query_has_key(forward_query, key),
    ensures
        forwarded_query(forward_query, request_query).first() == '?',
        items_with_key(forwarded_query(forward_query, request_query).drop_first(), key)
            == items_with_key(forward_query, key),
{
    if forward_query.len() == 0 {
        let own = split_text(forward_query, '&');
        assert(own == seq![Seq::<char>::empty()]);
        assert(item_key(own[0]) == Seq::<char>::empty());
    }
    lemma_forwarded_items(forward_query, request_query, key);
}

/// A request's other items pass: those with a key that the forward URL's query has
/// not, and that is not empty, are just the request's in the query that it is
/// forwarded with, in order, each as `key=value`.
pub proof fn law_forward_other_items_pass(
    forward_query: Seq<char>,
    request_query: Seq<char>,
    key: Seq<char>,
)
    requires
        forward_query.len() > 0,
        key.len() > 0,
        !query_has_key(forward_query, key),
    ensures
        items_with_key(forwarded_query(forward_query, request_query).drop_first(), key)
            == items_with_key(request_query, key).map_values(
            |item: Seq<char>| added_item(item),
        ),
{
    lemma_forwarded_items(forward_query, request_query, key);
}

/// Where the forward URL has the keys of all of a request's items, none is added.
pub proof fn law_forward_nothing_added(forward_query: Seq<char>, items: Seq<Seq<char>>)
    requires
        forall|i: int|
            0 <= i < items.len() ==> query_has_key(forward_query, item_key(#[trigger] items[i])),
    ensures
        added_items(forward_query, items) == Seq::<char>::empty(),
    decreases items.len(),
{
    if items.len() > 0 {
        assert(items.last() == items[items.len() - 1]);
        law_forward_nothing_added(forward_query, items.drop_last());
    }
}

/// A forward URL of a base and a query has these as its base and its query.
pub proof fn law_forward_url_parts(base: Seq<char>, query: Seq<char>)
    requires
        !base.contains('?'),
        !query.contains('?'),
    ensures
        base_of(base) == without_last(base, '/'),
        query_of(base) == Seq::<char>::empty(),
        base_of(base.push('?') + query) == without_last(base, '/'),
        query_of(base.push('?') + query) == query,
{
    law_split_whole(base, '?');
    law_split_whole(query, '?');
    law_split_first(base, query, '?');
}

/// A slash at the end of the forward URL's base makes no difference.
pub proof fn law_forward_slash(
    base: Seq<char>,
    rest: Seq<char>,
    path: Seq<char>,
    query: Option<Seq<char>>,
)
    requires
        !base.contains('?'),
        base.len() > 0 ==> base.last() != '/',
    ensures
        forwarded_url(base.push('/'), path, query) == forwarded_url(base, path, query),
        forwarded_url(base.push('/').push('?') + rest, path, query) == forwarded_url(
            base.push('?') + rest,
            path,
            query,
        ),
{
    let slashed = base.push('/');
    assert(!slashed.contains('?')) by {
        if slashed.contains('?') {
            let k = choose|k: int| 0 <= k < slashed.len() && slashed[k] == '?';
            assert(base[k] == '?');
        }
    }
    law_split_whole(base, '?');
    law_split_whole(slashed, '?');
    law_split_first(base, rest, '?');
    law_split_first(slashed, rest, '?');
    assert(slashed.drop_last() == base);
}

} // verus!
