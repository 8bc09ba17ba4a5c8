//! The URI that a request is forwarded to.

use crate::message::{optional_text, Request};
use crate::text::{chars_of, same_text, split, split_text, texts_of};
use vstd::prelude::*;

verus! {

/// `s` without its last character where that is `c`.
pub open spec fn without_last(s: Seq<char>, c: char) -> Seq<char> {
    if s.len() > 0 && s.last() == c {
        s.drop_last()
    } else {
        s
    }
}

/// The key of a query item: what stands before its first `=`.
pub open spec fn item_key(item: Seq<char>) -> Seq<char> {
    split_text(item, '=')[0]
}

/// The value of a query item: what stands between its first `=` and its second.
pub open spec fn item_value(item: Seq<char>) -> Seq<char> {
    if split_text(item, '=').len() > 1 {
        split_text(item, '=')[1]
    } else {
        Seq::empty()
    }
}

/// Whether `query` has an item with the given key.
pub open spec fn query_has_key(query: Seq<char>, key: Seq<char>) -> bool {
    exists|i: int|
        0 <= i < split_text(query, '&').len() && item_key(#[trigger] split_text(query, '&')[i])
            == key
}

/// The items whose keys `query` does not have, each as `&key=value`.
pub open spec fn added_items(query: Seq<char>, items: Seq<Seq<char>>) -> Seq<char>
    decreases items.len(),
{
    if items.len() == 0 {
        Seq::empty()
    } else {
        let before = added_items(query, items.drop_last());
        if query_has_key(query, item_key(items.last())) {
            before
        } else {
            before + seq!['&'] + item_key(items.last()) + seq!['='] + item_value(items.last())
        }
    }
}

/// The query string that follows the path, with its `?`: the request's own where
/// the forward URL has none, else that of the forward URL with the request's other
/// items behind it.
pub open spec fn forwarded_query(forward_query: Seq<char>, request_query: Seq<char>) -> Seq<char> {
    if forward_query.len() == 0 && request_query.len() == 0 {
        Seq::empty()
    } else if forward_query.len() == 0 {
        seq!['?'] + request_query
    } else {
        without_last(
            seq!['?'] + forward_query + added_items(forward_query, split_text(request_query, '&')),
            '&',
        )
    }
}

/// The forward URL up to its first `?`, without a slash at its end.
pub open spec fn base_of(forward_url: Seq<char>) -> Seq<char> {
    without_last(split_text(forward_url, '?')[0], '/')
}

/// What stands in the forward URL between its first `?` and its second.
pub open spec fn query_of(forward_url: Seq<char>) -> Seq<char> {
    if split_text(forward_url, '?').len() > 1 {
        split_text(forward_url, '?')[1]
    } else {
        Seq::empty()
    }
}

/// Where a request with the given path and query goes.
pub open spec fn forwarded_url(
    forward_url: Seq<char>,
    path: Seq<char>,
    query: Option<Seq<char>>,
) -> Seq<char> {
    let request_query = match query {
        Some(q) => q,
        None => Seq::empty(),
    };
    base_of(forward_url) + path + forwarded_query(query_of(forward_url), request_query)
}

/// `s` without its last character where that is `c`.
fn cut_last<'a>(s: &'a str, c: char) -> (res: &'a str)
    ensures
        res@ == without_last(s@, c),
{
    let chars = chars_of(s);
    if chars.len() > 0 && chars[chars.len() - 1] == c {
        let res = s.substring_char(0, chars.len() - 1);
        assert(res@ == s@.drop_last());
        res
    } else {
        s
    }
}

/// The piece of `s` at `index` when it is split at `sep`, or nothing past its end.
fn piece<'a>(s: &'a str, sep: char, index: usize) -> (res: &'a str)
    ensures
        res@ == if index < split_text(s@, sep).len() {
            split_text(s@, sep)[index as int]
        } else {
            Seq::empty()
        },
{
    let pieces = split(s, sep);
    assert(texts_of(pieces@).len() == pieces.len());
    if index < pieces.len() {
        assert(texts_of(pieces@)[index as int] == pieces@[index as int]@);
        pieces[index]
    } else {
        assert(s@.subrange(0, 0) == Seq::<char>::empty());
        s.substring_char(0, 0)
    }
}

/// Whether `query` has an item with the given key.
fn has_key(query: &str, key: &str) -> (res: bool)
    ensures
        res == query_has_key(query@, key@),
{
    let items = split(query, '&');
    let mut i: usize = 0;
    while i < items.len()
        invariant
            texts_of(items@) == split_text(query@, '&'),
            i <= items.len(),
            forall|j: int|
                0 <= j < i ==> item_key(#[trigger] split_text(query@, '&')[j]) != key@,
        decreases items.len() - i,
    {
        assert(texts_of(items@)[i as int] == items@[i as int]@);
        if same_text(piece(items[i], '=', 0), key) {
            return true;
        }
        i = i + 1;
    }
    assert(texts_of(items@).len() == items.len());
    false
}

/// Puts behind `url` the items of `request_query` whose keys `forward_query` does
/// not have, each as `&key=value`.
fn add_items(url: &mut String, forward_query: &str, request_query: &str)
    ensures
        final(url)@ == old(url)@ + added_items(
            forward_query@,
            split_text(request_query@, '&'),
        ),
{
    let items = split(request_query, '&');
    let ghost texts = split_text(request_query@, '&');
    let mut i: usize = 0;
    proof {
        reveal_strlit("&");
        reveal_strlit("=");
        assert("&"@ == seq!['&']);
        assert("="@ == seq!['=']);
        assert(texts.take(0) == Seq::<Seq<char>>::empty());
        assert(old(url)@ + Seq::<char>::empty() == old(url)@);
    }
    while i < items.len()
        invariant
            texts_of(items@) == texts,
            i <= items.len(),
            "&"@ == seq!['&'],
            "="@ == seq!['='],
            url@ == old(url)@ + added_items(forward_query@, texts.take(i as int)),
        decreases items.len() - i,
    {
        assert(texts_of(items@)[i as int] == items@[i as int]@);
        assert(texts.take(i + 1).drop_last() == texts.take(i as int));
        let ghost before = url@;
        let key = piece(items[i], '=', 0);
        if !has_key(forward_query, key) {
            url.append("&");
            url.append(key);
            url.append("=");
            url.append(piece(items[i], '=', 1));
            assert(url@ == old(url)@ + added_items(forward_query@, texts.take(i + 1)));
        }
        i = i + 1;
    }
    assert(texts.take(i as int) == texts);
}

/// Where a request goes: the forward URL's base, the request's path, and the
/// queries of both, in which the forward URL's items win.
pub fn forward_uri<B>(forward_url: &str, req: &Request<B>) -> (url: String)
    ensures
        url@ == forwarded_url(forward_url@, req.uri.path@, optional_text(req.uri.query)),
{
    let base_url = cut_last(piece(forward_url, '?', 0), '/');
    let forward_query = piece(forward_url, '?', 1);
    let request_query = match &req.uri.query {
        Some(query) => query.as_str(),
        None => "",
    };
    proof {
        reveal_strlit("");
        reveal_strlit("?");
        assert(""@ == Seq::<char>::empty());
        assert("?"@ == seq!['?']);
    }
    let mut url = base_url.to_owned();
    url.append(req.uri.path.as_str());
    let ghost target = url@;
    if !forward_query.is_empty() || !request_query.is_empty() {
        url.append("?");
        url.append(forward_query);
        if forward_query.is_empty() {
            url.append(request_query);
            assert(url@ == target + (seq!['?'] + request_query@));
        } else {
            add_items(&mut url, forward_query, request_query);
            let ghost full = seq!['?'] + forward_query@ + added_items(
                forward_query@,
                split_text(request_query@, '&'),
            );
            assert(url@ == target + full);
            url = cut_last(url.as_str(), '&').to_owned();
            assert(url@ == target + without_last(full, '&'));
        }
    } else {
        assert(target + Seq::<char>::empty() == target);
    }
    url
}

} // verus!
