use hyper::header::{HeaderMap, HeaderName, HeaderValue};
use hyper_reverse_proxy::headers::get_upgrade_type;
use hyper_reverse_proxy::proxy::{can_redirect, redirect_request};
use hyper_reverse_proxy::{
    checked_proxied_request, create_proxied_request, forward_uri, ProxyError, Request, Uri,
};

fn headers(items: &[(&str, &str)]) -> HeaderMap {
    let mut map = HeaderMap::new();
    for (name, value) in items {
        map.append(
            HeaderName::from_bytes(name.as_bytes()).unwrap(),
            HeaderValue::from_str(value).unwrap(),
        );
    }
    map
}

fn request(path: &str, headers: HeaderMap) -> Request<u32> {
    Request {
        uri: Uri {
            text: path.to_string(),
            host: None,
            path: path.to_string(),
            query: None,
        },
        headers,
        rest: 7,
    }
}

fn unreadable() -> HeaderValue {
    HeaderValue::from_bytes(b"\xfa").unwrap()
}

#[test]
fn goes_to_the_backend() {
    let map = headers(&[
        ("host", "example.com"),
        ("accept", "text/html"),
        ("keep-alive", "timeout=5"),
        ("connection", "x-kept"),
        ("x-kept", "1"),
    ]);
    let proxied = create_proxied_request(
        "10.0.0.1",
        "http://user@backend:8080/api/",
        request("/foo", map),
        None,
    )
    .unwrap();
    assert_eq!(proxied.uri.text, "http://user@backend:8080/api/foo");
    assert_eq!(proxied.uri.host, Some("backend".to_string()));
    assert_eq!(proxied.uri.path, "/api/foo");
    assert_eq!(proxied.uri.query, None);
    assert_eq!(proxied.rest, 7);
    assert_eq!(
        proxied.headers,
        headers(&[
            ("host", "backend"),
            ("accept", "text/html"),
            ("x-kept", "1"),
            ("x-forwarded-for", "10.0.0.1"),
        ])
    );
}

#[test]
fn trailers_are_kept() {
    let map = headers(&[("te", "gzip, Trailers")]);
    let proxied =
        create_proxied_request("::1", "http://[::1]:80", request("/", map), None).unwrap();
    assert_eq!(
        proxied.headers,
        headers(&[("host", "[::1]"), ("te", "trailers"), ("x-forwarded-for", "::1")])
    );
    let map = headers(&[("te", "gzip")]);
    let proxied = create_proxied_request("::1", "http://h", request("/", map), None).unwrap();
    assert!(!proxied.headers.contains_key("te"));
}

#[test]
fn upgrade_is_asked_for_anew() {
    let map = headers(&[("connection", "keep-alive, upgrade"), ("upgrade", "websocket")]);
    let kind = get_upgrade_type(&map);
    assert_eq!(kind, Some("websocket".to_string()));
    let proxied =
        create_proxied_request("10.0.0.1", "http://h", request("/ws", map), kind.as_ref()).unwrap();
    assert_eq!(
        proxied.headers,
        headers(&[
            ("host", "h"),
            ("upgrade", "websocket"),
            ("connection", "UPGRADE"),
            ("x-forwarded-for", "10.0.0.1"),
        ])
    );
    assert_eq!(get_upgrade_type(&proxied.headers), kind);
}

#[test]
fn any_visible_protocol_is_asked_for() {
    for kind in ["h2c", "", "a, \"b\"\tc"] {
        let kind = Some(kind.to_string());
        let map = headers(&[("connection", "close"), ("upgrade", "websocket")]);
        let proxied =
            create_proxied_request("10.0.0.1", "http://h", request("/", map), kind.as_ref())
                .unwrap();
        assert_eq!(get_upgrade_type(&proxied.headers), kind);
    }
    let map = headers(&[("connection", "upgrade"), ("upgrade", "websocket")]);
    let proxied = create_proxied_request("10.0.0.1", "http://h", request("/", map), None).unwrap();
    assert_eq!(get_upgrade_type(&proxied.headers), None);
}

#[test]
fn earlier_address_stands() {
    let map = headers(&[("x-forwarded-for", "10.0.0.9"), ("x-forwarded-for", "10.0.0.8")]);
    let proxied =
        create_proxied_request("10.0.0.1", "http://h", request("/", map), None).unwrap();
    assert_eq!(
        proxied.headers,
        headers(&[
            ("host", "h"),
            ("x-forwarded-for", "10.0.0.9"),
            ("x-forwarded-for", "10.0.0.8"),
        ])
    );
}

#[test]
fn second_proxy_changes_nothing() {
    let map = headers(&[("te", "trailers"), ("accept", "a")]);
    let once = create_proxied_request("10.0.0.1", "http://h", request("/", map), None).unwrap();
    let before = once.headers.clone();
    let twice = create_proxied_request("10.0.0.2", "http://h", once, None).unwrap();
    assert_eq!(twice.headers, before);
}

#[test]
fn invalid_uri_is_refused() {
    let req = request("/", HeaderMap::new());
    let res = create_proxied_request("10.0.0.1", "http://a b", req, None);
    assert!(matches!(res, Err(ProxyError::InvalidUri(_))));
    let res = checked_proxied_request("10.0.0.1", "", request("", HeaderMap::new()), None);
    assert!(matches!(res, Some(Err(ProxyError::InvalidUri(_)))));
}

#[test]
fn host_is_no_reason_to_refuse() {
    let mut forwarded = 0;
    for code in 0..256u32 {
        let c = char::from_u32(code).unwrap();
        let url = format!("http://a{c}b");
        let req = request("/", HeaderMap::new());
        let parses = forward_uri(&url, &req).parse::<hyper::Uri>().is_ok();
        match checked_proxied_request("10.0.0.1", &url, req, None) {
            Some(Ok(proxied)) => {
                assert!(parses);
                assert!(proxied.uri.host.unwrap().bytes().all(|b| b > 32 && b < 127));
                forwarded += 1;
            }
            Some(Err(ProxyError::InvalidUri(_))) => assert!(!parses),
            other => panic!("{url}: {:?}", other.is_some()),
        }
    }
    assert!(forwarded > 60);
}

#[test]
fn bad_address_is_refused() {
    let res = create_proxied_request("10\n", "http://h", request("/", HeaderMap::new()), None);
    assert!(matches!(res, Err(ProxyError::ForwardHeaderError)));
    let map = headers(&[("x-forwarded-for", "10.0.0.9")]);
    assert!(create_proxied_request("10\n", "http://h", request("/", map), None).is_ok());
}

#[test]
fn given_target_decides() {
    let target = Uri {
        text: "http://bad".to_string(),
        host: Some("bad\u{7f}".to_string()),
        path: "/".to_string(),
        query: None,
    };
    let res = redirect_request("10.0.0.1", request("/", HeaderMap::new()), Ok(target), None);
    assert!(matches!(res, Some(Err(ProxyError::ForwardHeaderError))));
    let target = Uri {
        text: "http://other/x".to_string(),
        host: Some("other".to_string()),
        path: "/x".to_string(),
        query: None,
    };
    let proxied = redirect_request("10.0.0.1", request("/", HeaderMap::new()), Ok(target), None)
        .unwrap()
        .unwrap();
    assert_eq!(proxied.uri.text, "http://other/x");
    assert_eq!(proxied.headers["host"], "other");
    let error = "a b".parse::<hyper::Uri>().unwrap_err();
    let res = redirect_request("10.0.0.1", request("/", HeaderMap::new()), Err(error), None);
    assert!(matches!(res, Some(Err(ProxyError::InvalidUri(_)))));
}

#[test]
fn what_cannot_be_proxied_is_told() {
    let mut map = HeaderMap::new();
    map.insert("te", unreadable());
    assert!(checked_proxied_request("10.0.0.1", "http://h", request("/", map), None).is_none());

    let res = checked_proxied_request("10.0.0.1", "", request("/path", HeaderMap::new()), None);
    assert!(res.is_none());

    let kind = "a\nb".to_string();
    let plain = request("/", HeaderMap::new());
    assert!(checked_proxied_request("10.0.0.1", "http://h", plain, Some(&kind)).is_none());

    let mut map = HeaderMap::new();
    map.insert("x-forwarded-for", unreadable());
    assert!(checked_proxied_request("10.0.0.1", "http://h", request("/", map), None).is_none());
}

#[test]
fn can_redirect_tells_beforehand() {
    let error = || Err("a b".parse::<hyper::Uri>().unwrap_err());
    let mut map = HeaderMap::new();
    assert!(can_redirect(&request("/", map.clone()), &error(), None));
    let kind = "\u{0}".to_string();
    assert!(can_redirect(&request("/", map.clone()), &error(), Some(&kind)));
    map.insert("te", unreadable());
    assert!(!can_redirect(&request("/", map), &error(), None));
}

#[test]
fn many_headers_are_forwarded() {
    let mut map = HeaderMap::new();
    for i in 0..8000 {
        map.insert(
            HeaderName::from_bytes(format!("x-{i}").as_bytes()).unwrap(),
            HeaderValue::from_static("v"),
        );
    }
    let proxied = checked_proxied_request("10.0.0.1", "http://h", request("/", map), None)
        .unwrap()
        .unwrap();
    assert_eq!(proxied.headers.keys_len(), 8002);
    assert_eq!(proxied.headers["host"], "h");
}
