use hyper::header::HeaderMap;
use hyper_reverse_proxy::{forward_uri, Request, Uri};

fn request(path: &str, query: Option<&str>) -> Request<()> {
    let text = match query {
        Some(q) => format!("{path}?{q}"),
        None => path.to_string(),
    };
    Request {
        uri: Uri {
            text,
            host: None,
            path: path.to_string(),
            query: query.map(str::to_string),
        },
        headers: HeaderMap::new(),
        rest: (),
    }
}

#[test]
fn goes_to_the_path() {
    let url = forward_uri("http://127.0.0.1:13901", &request("/foo", None));
    assert_eq!(url, "http://127.0.0.1:13901/foo");
    assert_eq!(forward_uri("", &request("/foo", None)), "/foo");
    assert_eq!(forward_uri("http://h", &request("", None)), "http://h");
}

#[test]
fn one_slash_is_cut() {
    assert_eq!(forward_uri("http://h/", &request("/foo", None)), "http://h/foo");
    assert_eq!(forward_uri("http://h/api/", &request("/foo", None)), "http://h/api/foo");
    assert_eq!(forward_uri("http://h//", &request("/foo", None)), "http://h//foo");
    assert_eq!(forward_uri("http://h/?a=1", &request("/", Some("b=2"))), "http://h/?a=1&b=2");
    for rest in ["", "a=1", "a=1?b=2", "?b=2"] {
        let plain = forward_uri(&format!("http://h?{rest}"), &request("/p", Some("c=3")));
        let slashed = forward_uri(&format!("http://h/?{rest}"), &request("/p", Some("c=3")));
        assert_eq!(plain, slashed);
    }
}

#[test]
fn own_query_is_kept() {
    assert_eq!(forward_uri("http://h", &request("/p", Some("a=1&b"))), "http://h/p?a=1&b");
    assert_eq!(forward_uri("http://h?", &request("/p", Some("a=b=c"))), "http://h/p?a=b=c");
    assert_eq!(forward_uri("http://h", &request("/p", Some(""))), "http://h/p");
}

#[test]
fn forward_items_win() {
    assert_eq!(forward_uri("http://h?a=1", &request("/p", Some("a=2&b=3"))), "http://h/p?a=1&b=3");
    assert_eq!(forward_uri("http://h?a=1", &request("/p", Some("a=2"))), "http://h/p?a=1");
    assert_eq!(forward_uri("http://h?a", &request("/p", Some("a=2&b"))), "http://h/p?a&b=");
    assert_eq!(forward_uri("http://h?a=1", &request("/p", Some("b=2=3"))), "http://h/p?a=1&b=2");
}

#[test]
fn items_keep_their_order() {
    let req = request("/p", Some("a=9&c=3&b=8&c&a&d=4=5"));
    assert_eq!(
        forward_uri("http://h?b=1&a=2=3&b&a", &req),
        "http://h/p?b=1&a=2=3&b&a&c=3&c=&d=4"
    );
}

#[test]
fn missing_query_counts_as_an_empty_item() {
    assert_eq!(forward_uri("http://h?a=1", &request("/p", None)), "http://h/p?a=1&=");
    assert_eq!(forward_uri("http://h?a=1", &request("/p", Some(""))), "http://h/p?a=1&=");
}

#[test]
fn ampersand_at_the_end_is_cut() {
    assert_eq!(forward_uri("http://h?a=1&", &request("/p", Some("a=2"))), "http://h/p?a=1");
    assert_eq!(forward_uri("http://h?a=1&", &request("/p", None)), "http://h/p?a=1");
    assert_eq!(forward_uri("http://h?&", &request("/p", None)), "http://h/p?");
}

#[test]
fn only_the_first_query_counts() {
    assert_eq!(forward_uri("http://h?a=1?b=2", &request("/p", Some("b=3"))), "http://h/p?a=1&b=3");
}
