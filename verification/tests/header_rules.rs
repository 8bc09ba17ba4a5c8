use hyper::header::{HeaderMap, HeaderName, HeaderValue};
use hyper_reverse_proxy::headers::{
    checked_remove_connection_headers, checked_upgrade_type, get_upgrade_type, header_text,
    remove_connection_headers, remove_hop_headers,
};
use hyper_reverse_proxy::{create_proxied_response, Response};

fn headers(items: &[(&str, &str)]) -> HeaderMap {
    let mut map = HeaderMap::new();
    for (name, value) in items {
        map.append(
            HeaderName::from_bytes(name.as_bytes()).unwrap(),
            HeaderValue::from_str(value).unwrap(),
        );
    }
    map
}

fn unreadable() -> HeaderValue {
    HeaderValue::from_bytes(b"\xfa").unwrap()
}

const HOP: [&str; 9] = [
    "connection",
    "te",
    "trailer",
    "keep-alive",
    "proxy-connection",
    "proxy-authenticate",
    "proxy-authorization",
    "transfer-encoding",
    "upgrade",
];

#[test]
fn hop_headers_go() {
    let mut map = headers(&[("x-one", "1"), ("accept", "a"), ("accept", "b")]);
    for name in HOP {
        map.append(name, HeaderValue::from_static("x"));
        map.append(name, HeaderValue::from_static("y"));
    }
    remove_hop_headers(&mut map);
    assert_eq!(map, headers(&[("x-one", "1"), ("accept", "a"), ("accept", "b")]));
    let once = map.clone();
    remove_hop_headers(&mut map);
    assert_eq!(map, once);
}

#[test]
fn listed_headers_go() {
    let mut map = headers(&[
        ("connection", "X-One,, a b ,\tx-three ,connection"),
        ("connection", "x-four"),
        ("x-one", "1"),
        ("x-two", "2"),
        ("x-three", "3"),
        ("x-four", "4"),
    ]);
    remove_connection_headers(&mut map);
    assert_eq!(map, headers(&[("x-two", "2"), ("x-four", "4")]));
}

#[test]
fn long_names_are_not_turned_away() {
    let name = format!("{} b", "a".repeat(64));
    let mut map = headers(&[("x-one", "1")]);
    map.try_entry(name.as_str()).unwrap().or_insert(HeaderValue::from_static("2"));
    assert_eq!(header_text(&map, &name), Some(Some("2".to_string())));
    assert_eq!(header_text(&map, &name.to_uppercase()), Some(Some("2".to_string())));
    assert_eq!(header_text(&map, &name.replace(' ', ":")), Some(Some("2".to_string())));
    assert_eq!(header_text(&map, &name.replace(' ', "-")), Some(None));
    map.insert("connection", HeaderValue::from_str(&format!("close, {name} ")).unwrap());
    remove_connection_headers(&mut map);
    assert_eq!(header_text(&map, &name), Some(None));
    map.remove("connection");
    assert_eq!(map, headers(&[("x-one", "1")]));
}

#[test]
fn short_names_are_turned_away() {
    let name = format!("{} b", "a".repeat(62));
    assert_eq!(name.len(), 64);
    let mut map = headers(&[("x-one", "1")]);
    assert!(map.try_entry(name.as_str()).is_err());
    assert_eq!(header_text(&map, &name), Some(None));
    assert_eq!(header_text(&map, ""), Some(None));
    assert_eq!(header_text(&map, &"a".repeat(65536)), Some(None));
    map.insert("connection", HeaderValue::from_str(&name).unwrap());
    let before = map.clone();
    remove_connection_headers(&mut map);
    assert_eq!(map, before);
}

#[test]
fn listed_name_goes_in_any_case() {
    let name = format!("x-{}", "y".repeat(70));
    let mut map = headers(&[("connection", &name.to_uppercase()), (&name, "1"), ("x-y", "2")]);
    remove_connection_headers(&mut map);
    assert_eq!(header_text(&map, &name), Some(None));
    assert_eq!(header_text(&map, "X-Y"), Some(Some("2".to_string())));
}

#[test]
fn unreadable_list_leaves_the_map() {
    let mut map = headers(&[("x-one", "1")]);
    map.insert("connection", unreadable());
    let before = map.clone();
    assert!(!checked_remove_connection_headers(&mut map));
    assert_eq!(map, before);
    let mut empty = HeaderMap::new();
    assert!(checked_remove_connection_headers(&mut empty));
    assert!(empty.is_empty());
}

#[test]
fn reads_the_first_value() {
    let mut map = headers(&[("te", "a\tb"), ("te", "c")]);
    assert_eq!(header_text(&map, "te"), Some(Some("a\tb".to_string())));
    assert_eq!(header_text(&map, "host"), Some(None));
    map.insert("host", unreadable());
    assert_eq!(header_text(&map, "host"), None);
}

#[test]
fn upgrade_needs_both_headers() {
    assert_eq!(get_upgrade_type(&headers(&[])), None);
    assert_eq!(get_upgrade_type(&headers(&[("connection", "Upgrade")])), None);
    assert_eq!(get_upgrade_type(&headers(&[("upgrade", "websocket")])), None);
    assert_eq!(
        get_upgrade_type(&headers(&[("connection", "close"), ("upgrade", "websocket")])),
        None
    );
    assert_eq!(
        get_upgrade_type(&headers(&[
            ("connection", "keep-alive, Upgrade"),
            ("upgrade", "WebSocket"),
            ("upgrade", "h2c"),
        ])),
        Some("WebSocket".to_string())
    );
}

#[test]
fn unreadable_upgrade_is_told() {
    let mut map = headers(&[("connection", "upgrade")]);
    map.insert("upgrade", unreadable());
    assert_eq!(checked_upgrade_type(&map), None);
    map.insert("connection", HeaderValue::from_static("close"));
    assert_eq!(checked_upgrade_type(&map), Some(None));
    map.insert("connection", unreadable());
    assert_eq!(checked_upgrade_type(&map), None);
}

#[test]
fn response_loses_only_hop_headers() {
    let response = Response {
        status: 404,
        headers: headers(&[
            ("connection", "x-kept"),
            ("x-kept", "1"),
            ("keep-alive", "timeout=5"),
            ("content-type", "text/plain"),
        ]),
        rest: "body",
    };
    let proxied = create_proxied_response(response);
    assert_eq!(proxied.status, 404);
    assert_eq!(proxied.rest, "body");
    assert_eq!(proxied.headers, headers(&[("x-kept", "1"), ("content-type", "text/plain")]));
}
