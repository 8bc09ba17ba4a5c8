//! What holds of the URL that a request is forwarded to, over its parts and the items
//! of its query.

use crate::forward::{
    added_items, base_of, forwarded_query, forwarded_url, item_key, item_value, query_has_key,
    query_of, without_last,
};
use crate::laws::{added_item, lemma_added_item};
use crate::text::{
    law_split_first, law_split_joins, law_split_last, law_split_whole, split_text,
};
use vstd::prelude::*;

verus! {

/// A character is cut from the end of a text once, and another one never.
pub proof fn law_cut_last(s: Seq<char>, c: char)
    ensures
        without_last(s.push(c), c) == s,
        (s.len() > 0 ==> s[s.len() - 1] != c) ==> without_last(s, c) == s,
{
    assert(s.push(c).drop_last() == s);
}

/// The key of an item is all of it up to its first `=`. Its value is all that follows,
/// up to a second `=`, and empty where there is no first.
pub proof fn law_item_parts(key: Seq<char>, value: Seq<char>, rest: Seq<char>)
    requires
        !key.contains('='),
        !value.contains('='),
    ensures
        item_key(key) == key,
        item_value(key).len() == 0,
        item_key(key.push('=') + value) == key,
        item_value(key.push('=') + value) == value,
        item_key(key.push('=') + value.push('=') + rest) == key,
        item_value(key.push('=') + value.push('=') + rest) == value,
{
    law_split_whole(key, '=');
    law_split_whole(value, '=');
    law_split_first(key, value, '=');
    law_split_first(value, rest, '=');
    law_split_first(key, value.push('=') + rest, '=');
    assert(key.push('=') + (value.push('=') + rest) == key.push('=') + value.push('=') + rest);
}

/// A query has the keys of its items between `&`, and no others.
pub proof fn law_query_keys(query: Seq<char>, key: Seq<char>)
    ensures
        query_has_key(query, key) <==> exists|item: Seq<char>| #[trigger]
            split_text(query, '&').contains(item) && item_key(item) == key,
{
    let items = split_text(query, '&');
    if query_has_key(query, key) {
        let i = choose|i: int| 0 <= i < items.len() && item_key(#[trigger] items[i]) == key;
        assert(items.contains(items[i]));
    }
    if exists|item: Seq<char>| #[trigger] items.contains(item) && item_key(item) == key {
        let item = choose|item: Seq<char>| #[trigger]
            items.contains(item) && item_key(item) == key;
        let i = choose|i: int| 0 <= i < items.len() && items[i] == item;
        assert(item_key(items[i]) == key);
    }
}

/// The items that are added behind a query: those whose keys it has not, in order, each
/// with a `=` between key and value.
proof fn lemma_split_added(query: Seq<char>, items: Seq<Seq<char>>)
    requires
        forall|i: int| 0 <= i < items.len() ==> !(#[trigger] items[i]).contains('&'),
    ensures
        ({
            let added = items.filter(
                |item: Seq<char>| !query_has_key(query, item_key(item)),
            ).map_values(|item: Seq<char>| added_item(item));
            let text = added_items(query, items);
            &&& split_text(query + text, '&') == split_text(query, '&') + added
            &&& added.len() == 0 ==> text.len() == 0
            &&& added.len() > 0 ==> text.len() > 0 && text.last() != '&'
        }),
    decreases items.len(),
{
    reveal(Seq::filter);
    let lacks = |item: Seq<char>| !query_has_key(query, item_key(item));
    let form = |item: Seq<char>| added_item(item);
    let added = items.filter(lacks).map_values(form);
    let own = split_text(query, '&');
    if items.len() == 0 {
        assert(query + added_items(query, items) == query);
        assert(own + added == own);
    } else {
        let fewer = items.drop_last();
        let item = items.last();
        assert(item == items[items.len() - 1]);
        assert forall|i: int| 0 <= i < fewer.len() implies !(#[trigger] fewer[i]).contains('&') by {
            assert(fewer[i] == items[i]);
        }
        lemma_split_added(query, fewer);
        let before = query + added_items(query, fewer);
        let after = query + added_items(query, items);
        let added_before = fewer.filter(lacks).map_values(form);
        if !lacks(item) {
            assert(after == before);
        } else {
            let one = added_item(item);
            lemma_added_item(item);
            assert(after == before.push('&') + one);
            law_split_last(before, one, '&');
            assert(fewer.filter(lacks).push(item).map_values(form) == added_before.push(one));
            assert((own + added_before).push(one) == own + added_before.push(one));
            assert(added_items(query, items) == added_items(query, fewer) + seq!['&'] + one);
            assert(added_items(query, items).last() == one.last());
            assert(one[one.len() - 1] != '&') by {
                if one[one.len() - 1] == '&' {
                    assert(one.contains('&'));
                }
            }
        }
    }
}

/// Where the forward URL has a query, the items that a request is forwarded with are
/// its items, as they stand, and then those of the request whose keys it has not, each
/// with a `=` between key and value. Where the forward URL's query ends in `&` and
/// nothing follows, the empty item at its end is left out.
pub proof fn law_merged_items(forward_query: Seq<char>, request_query: Seq<char>)
    requires
        forward_query.len() > 0,
    ensures
        ({
            let own = split_text(forward_query, '&');
            let added = split_text(request_query, '&').filter(
                |item: Seq<char>| !query_has_key(forward_query, item_key(item)),
            ).map_values(|item: Seq<char>| item_key(item).push('=') + item_value(item));
            let query = forwarded_query(forward_query, request_query);
            let merged = split_text(query.drop_first(), '&');
            &&& query.len() > 0
            &&& query.first() == '?'
            &&& added.len() > 0 || forward_query.last() != '&' ==> merged == own + added
            &&& added.len() == 0 && forward_query.last() == '&' ==> merged == own.drop_last()
        }),
{
    let items = split_text(request_query, '&');
    let lacks = |item: Seq<char>| !query_has_key(forward_query, item_key(item));
    let text = added_items(forward_query, items);
    let full = seq!['?'] + forward_query + text;
    let whole = forward_query + text;
    law_split_joins(request_query, '&');
    lemma_split_added(forward_query, items);
    let added = items.filter(lacks).map_values(
        |item: Seq<char>| item_key(item).push('=') + item_value(item),
    );
    assert(added == items.filter(lacks).map_values(|item: Seq<char>| added_item(item)));
    assert(full.drop_first() == whole);
    assert(without_last(full, '&').drop_first() == without_last(whole, '&'));
    if added.len() == 0 {
        assert(whole == forward_query);
        assert(split_text(forward_query, '&') + added == split_text(forward_query, '&'));
        if forward_query.last() == '&' {
            let pieces = split_text(whole.drop_last(), '&');
            assert(pieces.push(Seq::<char>::empty()).drop_last() == pieces);
        }
    }
}

/// Where the forward URL has no query, a request is forwarded with its own, and with no
/// `?` where that is empty.
pub proof fn law_own_query(request_query: Seq<char>)
    ensures
        request_query.len() == 0 ==> forwarded_query(Seq::empty(), request_query).len() == 0,
        request_query.len() > 0 ==> forwarded_query(Seq::empty(), request_query) == seq!['?']
            + request_query,
{
}

/// An item `key=value` of a request whose key the forward URL has not is forwarded
/// unchanged.
pub proof fn law_item_unchanged(
    forward_query: Seq<char>,
    request_query: Seq<char>,
    key: Seq<char>,
    value: Seq<char>,
)
    requires
        forward_query.len() > 0,
        !key.contains('='),
        !value.contains('='),
        !query_has_key(forward_query, key),
        split_text(request_query, '&').contains(key.push('=') + value),
    ensures
        split_text(forwarded_query(forward_query, request_query).drop_first(), '&').contains(
            key.push('=') + value,
        ),
{
    let item = key.push('=') + value;
    let items = split_text(request_query, '&');
    let lacks = |item: Seq<char>| !query_has_key(forward_query, item_key(item));
    law_item_parts(key, value, Seq::empty());
    law_merged_items(forward_query, request_query);
    let k = choose|k: int| 0 <= k < items.len() && items[k] == item;
    items.lemma_filter_contains(lacks, k);
    let kept = items.filter(lacks);
    let j = choose|j: int| 0 <= j < kept.len() && kept[j] == item;
    let added = kept.map_values(|item: Seq<char>| item_key(item).push('=') + item_value(item));
    assert(added[j] == item);
    let own = split_text(forward_query, '&');
    assert((own + added)[own.len() + j] == item);
}

/// An item of the forward URL is forwarded unchanged, unless it is empty.
pub proof fn law_forward_item_unchanged(
    forward_query: Seq<char>,
    request_query: Seq<char>,
    item: Seq<char>,
)
    requires
        item.len() > 0,
        split_text(forward_query, '&').contains(item),
    ensures
        split_text(forwarded_query(forward_query, request_query).drop_first(), '&').contains(item),
{
    let own = split_text(forward_query, '&');
    let k = choose|k: int| 0 <= k < own.len() && own[k] == item;
    if forward_query.len() == 0 {
        assert(own[k] == Seq::<char>::empty());
    }
    law_merged_items(forward_query, request_query);
    let merged = split_text(forwarded_query(forward_query, request_query).drop_first(), '&');
    if forward_query.last() == '&' {
        assert(own.last() == Seq::<char>::empty());
    }
    assert(merged[k] == item);
}

/// A forward URL whose base ends in no slash has that base put whole before the path,
/// and its query, up to a second `?`, merged with the request's.
pub proof fn law_forward_base(
    base: Seq<char>,
    forward_query: Seq<char>,
    rest: Seq<char>,
    path: Seq<char>,
    query: Option<Seq<char>>,
)
    requires
        !base.contains('?'),
        base.len() > 0 ==> base[base.len() - 1] != '/',
        !forward_query.contains('?'),
    ensures
        ({
            let asked = match query {
                Some(q) => q,
                None => Seq::empty(),
            };
            let url = base.push('?') + forward_query;
            let merged = base + path + forwarded_query(forward_query, asked);
            &&& forwarded_url(base, path, query) == base + path + forwarded_query(
                Seq::empty(),
                asked,
            )
            &&& forwarded_url(url, path, query) == merged
            &&& forwarded_url(url.push('?') + rest, path, query) == merged
        }),
{
    lemma_forward_parts(base, forward_query, rest);
    law_cut_last(base, '/');
}

/// A forward URL whose base ends in a slash, and be it one of several, has that base
/// put before the path without it.
pub proof fn law_forward_base_slash(
    base: Seq<char>,
    forward_query: Seq<char>,
    rest: Seq<char>,
    path: Seq<char>,
    query: Option<Seq<char>>,
)
    requires
        !base.contains('?'),
        !forward_query.contains('?'),
    ensures
        ({
            let asked = match query {
                Some(q) => q,
                None => Seq::empty(),
            };
            let url = base.push('/').push('?') + forward_query;
            let merged = base + path + forwarded_query(forward_query, asked);
            &&& forwarded_url(base.push('/'), path, query) == base + path + forwarded_query(
                Seq::empty(),
                asked,
            )
            &&& forwarded_url(url, path, query) == merged
            &&& forwarded_url(url.push('?') + rest, path, query) == merged
        }),
{
    let slashed = base.push('/');
    assert(!slashed.contains('?')) by {
        if slashed.contains('?') {
            let k = choose|k: int| 0 <= k < slashed.len() && slashed[k] == '?';
            assert(base[k] == '?');
        }
    }
    lemma_forward_parts(slashed, forward_query, rest);
    law_cut_last(base, '/');
}

/// The parts of a forward URL with no query, one, and more than one.
proof fn lemma_forward_parts(base: Seq<char>, forward_query: Seq<char>, rest: Seq<char>)
    requires
        !base.contains('?'),
        !forward_query.contains('?'),
    ensures
        base_of(base) == without_last(base, '/'),
        query_of(base) == Seq::<char>::empty(),
        base_of(base.push('?') + forward_query) == without_last(base, '/'),
        query_of(base.push('?') + forward_query) == forward_query,
        base_of((base.push('?') + forward_query).push('?') + rest) == without_last(base, '/'),
        query_of((base.push('?') + forward_query).push('?') + rest) == forward_query,
{
    let tail = forward_query.push('?') + rest;
    law_split_whole(base, '?');
    law_split_whole(forward_query, '?');
    law_split_first(base, forward_query, '?');
    law_split_first(forward_query, rest, '?');
    law_split_first(base, tail, '?');
    assert((base.push('?') + forward_query).push('?') + rest == base.push('?') + tail);
}

/// Without queries, a request goes to its path under the base of the forward URL, with
/// one slash cut from the end of that where there is one.
pub proof fn law_forward_plain(base: Seq<char>, path: Seq<char>)
    requires
        !base.contains('?'),
    ensures
        (base.len() > 0 ==> base[base.len() - 1] != '/') ==> forwarded_url(base, path, None) == base
            + path,
        forwarded_url(base.push('/'), path, None) == base + path,
{
    law_own_query(Seq::empty());
    let none = Seq::<char>::empty();
    assert(base + path + none == base + path);
    assert(forwarded_query(none, none) == none);
    law_forward_base_slash(base, none, none, path, None);
    if base.len() > 0 ==> base[base.len() - 1] != '/' {
        law_forward_base(base, none, none, path, None);
    }
}

} // verus!
