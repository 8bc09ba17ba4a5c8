use hyper::header::{HeaderMap, HeaderName, HeaderValue};
use hyper_reverse_proxy::{finish_upgrade, Exchange, Next, ProxyError, Request, Response, Uri};
use hyper_util::client::legacy::Client;
use hyper_util::rt::TokioExecutor;

const BACKEND: &str = "http://127.0.0.1:13901";

fn headers(items: &[(&str, &str)]) -> HeaderMap {
    let mut map = HeaderMap::new();
    for (name, value) in items {
        map.append(
            HeaderName::from_bytes(name.as_bytes()).unwrap(),
            HeaderValue::from_str(value).unwrap(),
        );
    }
    map
}

fn begin(path: &str, headers: HeaderMap, upgradable: bool) -> (Exchange, Request<()>) {
    let request = Request {
        uri: Uri {
            text: path.to_string(),
            host: None,
            path: path.to_string(),
            query: None,
        },
        headers,
        rest: (),
    };
    Exchange::begin("127.0.0.1", BACKEND, request, upgradable)
        .unwrap()
        .unwrap()
}

fn answer(status: u16, headers: HeaderMap) -> Response<&'static str> {
    Response {
        status,
        headers,
        rest: "body",
    }
}

fn upgrade_error(next: Option<Next<&'static str>>) -> String {
    match next {
        Some(Next::Finish(Err(ProxyError::UpgradeError(text)))) => text,
        _ => panic!("no upgrade error"),
    }
}

fn runtime() -> tokio::runtime::Runtime {
    tokio::runtime::Builder::new_current_thread().build().unwrap()
}

fn hyper_error() -> hyper::Error {
    let upgrade = hyper::upgrade::on(hyper::Request::new(()));
    match runtime().block_on(upgrade) {
        Ok(_) => panic!("nothing to upgrade"),
        Err(err) => err,
    }
}

fn client_error() -> hyper_util::client::legacy::Error {
    let runtime = runtime();
    let _guard = runtime.enter();
    let client: Client<_, String> = Client::builder(TokioExecutor::new()).build_http();
    let call = client.request(hyper::Request::new(String::new()));
    runtime.block_on(call).unwrap_err()
}

#[test]
fn test_get_error_500() {
    let (exchange, proxied) = begin("/500", headers(&[("keep-alive", "treu")]), false);
    assert_eq!(proxied.uri.text, "http://127.0.0.1:13901/500");
    assert!(!proxied.headers.contains_key("keep-alive"));
    match exchange.on_response(Ok(answer(500, HeaderMap::new()))) {
        Some(Next::Finish(Ok(response))) => assert_eq!(500, response.status),
        _ => panic!("no response"),
    }
}

#[test]
fn test_upgrade_mismatch() {
    let asked = headers(&[("connection", "Upgrade"), ("upgrade", "websocket")]);
    let (exchange, _) = begin("/ws", asked, true);
    let next = exchange.on_response(Ok(answer(101, HeaderMap::new())));
    assert_eq!(
        upgrade_error(next),
        "backend tried to switch to protocol None when Some(\"websocket\") was requested"
    );
}

#[test]
fn test_upgrade_unrequested() {
    let (exchange, _) = begin("/wrong_switch", HeaderMap::new(), false);
    let next = exchange.on_response(Ok(answer(101, HeaderMap::new())));
    assert_eq!(
        upgrade_error(next),
        "request does not have an upgrade extension"
    );
}

#[test]
fn test_get() {
    let (exchange, proxied) = begin("/foo", HeaderMap::new(), false);
    assert_eq!(proxied.uri.text, "http://127.0.0.1:13901/foo");
    let map = headers(&[("connection", "close"), ("x-one", "1")]);
    match exchange.on_response(Ok(answer(200, map))) {
        Some(Next::Finish(Ok(response))) => {
            assert_eq!(200, response.status);
            assert_eq!(response.rest, "body");
            assert_eq!(response.headers, headers(&[("x-one", "1")]));
        }
        _ => panic!("no response"),
    }
}

#[test]
fn test_websocket() {
    let asked = headers(&[("connection", "Upgrade"), ("upgrade", "websocket")]);
    let (exchange, proxied) = begin("/", asked, true);
    assert_eq!(proxied.headers["upgrade"], "websocket");
    assert_eq!(proxied.headers["connection"], "UPGRADE");
    let map = headers(&[("connection", "upgrade"), ("upgrade", "websocket")]);
    let response = match exchange.on_response(Ok(answer(101, map.clone()))) {
        Some(Next::Upgrade(response)) => response,
        _ => panic!("no upgrade"),
    };
    let (response, connection) = finish_upgrade(response, Ok("hello")).unwrap();
    assert_eq!(connection, "hello");
    assert_eq!(response.status, 101);
    assert_eq!(response.headers, map);
    assert_eq!(response.rest, "body");
}

#[test]
fn protocols_are_quoted_as_by_debug() {
    for kind in ["a\tb", "say \"hi\"", "back\\slash", "it's", "h2c"] {
        let asked = headers(&[("connection", "upgrade"), ("upgrade", kind)]);
        let (exchange, _) = begin("/", asked, true);
        let offered = headers(&[("connection", "upgrade"), ("upgrade", "x")]);
        assert_eq!(
            upgrade_error(exchange.on_response(Ok(answer(101, offered)))),
            format!(
                "backend tried to switch to protocol {:?} when {:?} was requested",
                Some("x".to_string()),
                Some(kind.to_string())
            )
        );
    }
}

#[test]
fn unreadable_answer_is_told() {
    let (exchange, _) = begin("/", HeaderMap::new(), true);
    let mut map = HeaderMap::new();
    map.insert("connection", HeaderValue::from_bytes(b"\xfa").unwrap());
    assert!(exchange.on_response(Ok(answer(101, map))).is_none());
}

#[test]
fn unreadable_request_is_told() {
    let mut map = HeaderMap::new();
    map.insert("connection", HeaderValue::from_bytes(b"\xfa").unwrap());
    let request = Request {
        uri: Uri {
            text: "/".to_string(),
            host: None,
            path: "/".to_string(),
            query: None,
        },
        headers: map,
        rest: (),
    };
    assert!(Exchange::begin("127.0.0.1", BACKEND, request, false).is_none());
}

#[test]
fn unreachable_backend_is_told() {
    let (exchange, _) = begin("/", HeaderMap::new(), false);
    match exchange.on_response::<()>(Err(client_error())) {
        Some(Next::Finish(Err(err))) => {
            assert!(matches!(err, ProxyError::ClientError(_)));
            assert_eq!(
                err.message(),
                format!("ClientError: {}", client_error())
            );
        }
        _ => panic!("no error"),
    }
}

#[test]
fn failed_upgrade_is_told() {
    let res = finish_upgrade::<_, ()>(answer(101, HeaderMap::new()), Err(hyper_error()));
    match res {
        Err(err) => {
            assert!(matches!(err, ProxyError::HyperError(_)));
            assert_eq!(err.message(), format!("HyperError: {}", hyper_error()));
        }
        Ok(_) => panic!("no error"),
    }
}
