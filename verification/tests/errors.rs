use hyper::header::HeaderValue;
use hyper_reverse_proxy::ProxyError;

#[test]
fn messages_name_the_error() {
    let err = ProxyError::from("".parse::<hyper::Uri>().unwrap_err());
    assert!(matches!(err, ProxyError::InvalidUri(_)));
    assert_eq!(err.message(), "InvalidUri: empty string");
    assert_eq!(ProxyError::ForwardHeaderError.message(), "ForwardHeaderError");
    assert_eq!(
        ProxyError::UpgradeError("no".to_string()).message(),
        "UpgradeError: no"
    );
}

#[test]
fn header_errors_are_one() {
    let err = HeaderValue::from_str("\n").unwrap_err();
    assert!(matches!(ProxyError::from(err), ProxyError::ForwardHeaderError));
    let value = HeaderValue::from_bytes(b"\xfa").unwrap();
    let err = value.to_str().unwrap_err();
    assert!(matches!(ProxyError::from(err), ProxyError::ForwardHeaderError));
}
