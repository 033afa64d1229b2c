use http_server::line::{read_until_crlf, RequestLine, RequestMethod};
use http_server::routes::Route;

#[test]
fn test_read_until_crlf() {
    let data = b"zero\r\none\r\n\r\n".to_vec();

    let (buf, pos) = read_until_crlf(&data, 0);
    assert_eq!(buf, Some(b"zero".to_vec()));

    let (buf, pos) = read_until_crlf(&data, pos);
    assert_eq!(buf, Some(b"one".to_vec()));

    let (buf, pos) = read_until_crlf(&data, pos);
    assert_eq!(buf, None);

    let (buf, _) = read_until_crlf(&data, pos);
    assert_eq!(buf, None);
}

#[test]
fn test_read_until_crlf_only_cr() {
    let data = b"zero\r\r\r".to_vec();

    let (buf, pos) = read_until_crlf(&data, 0);
    assert_eq!(buf, Some(b"zero\r\r\r".to_vec()));

    let (buf, _) = read_until_crlf(&data, pos);
    assert_eq!(buf, None);
}

#[test]
fn test_request_line_from_bytes() {
    let r = RequestLine::parse(
        &b"
    GET
    /user-agent
    HTTP/1.1
    \r\n
    "
        .to_vec(),
    )
    .unwrap();
    assert_eq!(r.method, RequestMethod::Get);
    assert_eq!(r.route, Route::UserAgent);
    assert_eq!(r.version, b"HTTP/1.1".to_vec());
}

#[test]
fn simple_request_line_rejects_other_methods() {
    assert!(RequestLine::parse(&b"POST /x HTTP/1.1\r\n".to_vec()).is_err());
    assert!(RequestLine::parse(&b"\r\n".to_vec()).is_err());
    assert!(RequestLine::parse(&b"".to_vec()).is_err());
    let r = RequestLine::parse(&b"get /echo/hi HTTP/1.1\r\n".to_vec()).unwrap();
    assert_eq!(r.route, Route::Echo { command: b"hi".to_vec() });
}
