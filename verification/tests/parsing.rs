use http_server::message::{FieldContent, FieldName, FieldValue, HttpVersion, MessageHeader};
use http_server::parse::Step;
use http_server::parser::{
    parse_field_content, parse_field_name, parse_field_value, parse_http_version,
    parse_message_header, parse_method, parse_request, parse_request_line, parse_request_uri,
    skip_lws,
};
use http_server::request::{Method, Request, RequestLine, RequestURI};
use http_server::stream::{ParseStep, StreamParser};

fn done<T: PartialEq + std::fmt::Debug>(r: Step<T>, value: T, next: usize) {
    match r {
        Step::Done { value: v, next: n } => {
            assert_eq!(v, value);
            assert_eq!(n, next);
        }
        Step::More => panic!("wanted a value, parser wants more bytes"),
        Step::Fail => panic!("wanted a value, parser failed"),
    }
}

#[test]
fn test_parse_method() {
    done(parse_method(&b"get".to_vec(), 0, true), Method::Get, 3);
    done(parse_method(&b"Get ".to_vec(), 0, true), Method::Get, 3);
    done(
        parse_method(&b"Something ".to_vec(), 0, true),
        Method::Extension(b"Something".to_vec()),
        9,
    );
}

#[test]
fn test_method_from_bytes() {
    done(parse_method(&b"get".to_vec(), 0, true), Method::Get, 3);
    done(parse_method(&b"Get".to_vec(), 0, true), Method::Get, 3);
    done(parse_method(&b"GET".to_vec(), 0, true), Method::Get, 3);
    done(
        parse_method(&b"Extension".to_vec(), 0, true),
        Method::Extension(b"Extension".to_vec()),
        9,
    );
}

#[test]
fn method_partial_mode() {
    assert!(matches!(parse_method(&b"ge".to_vec(), 0, false), Step::More));
    assert!(matches!(parse_method(&b"po".to_vec(), 0, false), Step::More));
    assert!(matches!(parse_method(&b"abc".to_vec(), 0, false), Step::More));
    done(parse_method(&b"post".to_vec(), 0, false), Method::Post, 4);
    assert!(matches!(parse_method(&b"123".to_vec(), 0, true), Step::Fail));
    assert!(matches!(parse_method(&b"".to_vec(), 0, true), Step::Fail));
}

#[test]
fn test_parse_http_version() {
    done(
        parse_http_version(&b"HTTP/1.0".to_vec(), 0, true),
        HttpVersion { major: 1, minor: 0 },
        8,
    );
}

#[test]
fn protocol_test_parse_http_version() {
    done(
        parse_http_version(&b"HTTP/1.0 ".to_vec(), 0, false),
        HttpVersion { major: 1, minor: 0 },
        8,
    );
}

#[test]
fn version_rejects_overflow() {
    assert!(matches!(
        parse_http_version(&b"HTTP/5000000000.1 ".to_vec(), 0, true),
        Step::Fail
    ));
    assert!(matches!(parse_http_version(&b"HTTP/.1".to_vec(), 0, true), Step::Fail));
    assert!(matches!(parse_http_version(&b"HTT".to_vec(), 0, false), Step::More));
    assert!(matches!(parse_http_version(&b"XTTP/1.1".to_vec(), 0, true), Step::Fail));
}

#[test]
fn request_uri_token() {
    done(
        parse_request_uri(&b"http://localhost ".to_vec(), 0, true),
        RequestURI(b"http://localhost".to_vec()),
        16,
    );
    assert!(matches!(parse_request_uri(&b" x".to_vec(), 0, true), Step::Fail));
    assert!(matches!(parse_request_uri(&b"abc".to_vec(), 0, false), Step::More));
}

#[test]
fn request_line_full() {
    done(
        parse_request_line(&b"GET /user-agent HTTP/1.1\r\n".to_vec(), 0, false),
        RequestLine {
            method: Method::Get,
            request_uri: RequestURI(b"/user-agent".to_vec()),
            http_version: HttpVersion { major: 1, minor: 1 },
        },
        26,
    );
}

#[test]
fn request_line_leading_and_trailing_blanks() {
    let input = b"  \tGET /user-agent HTTP/1.1  \t\r\n".to_vec();
    match parse_request_line(&input, 0, true) {
        Step::Done { value, next } => {
            assert_eq!(value.method, Method::Get);
            assert_eq!(value.request_uri, RequestURI(b"/user-agent".to_vec()));
            assert_eq!(value.http_version, HttpVersion { major: 1, minor: 1 });
            assert_eq!(next, input.len());
        }
        _ => panic!("request line should parse"),
    }
}

#[test]
fn request_line_round_trip_normalizes() {
    let input = b"  get /x HTTP/01.1\r\n".to_vec();
    match parse_request_line(&input, 0, true) {
        Step::Done { value, .. } => {
            assert_eq!(value.into_bytes(), b"GET /x HTTP/1.1\r\n");
        }
        _ => panic!("request line should parse"),
    }
}

#[test]
fn test_lws_no_crlf() {
    assert_eq!(skip_lws(&b" \t abc".to_vec(), 0, true), Some(3));
}

#[test]
fn test_lws_crlf() {
    assert_eq!(skip_lws(&b"\r\n\t abc".to_vec(), 0, true), Some(4));
}

#[test]
fn test_lws_empty() {
    assert_eq!(skip_lws(&b"".to_vec(), 0, true), Some(0));
}

#[test]
fn test_lws_only_space() {
    assert_eq!(skip_lws(&b"   ".to_vec(), 0, true), Some(3));
}

#[test]
fn test_many_lws() {
    assert_eq!(skip_lws(&b" \t abc".to_vec(), 0, true), Some(3));
}

#[test]
fn test_many_lws_empty() {
    assert_eq!(skip_lws(&b"".to_vec(), 0, true), Some(0));
}

#[test]
fn test_many_lws_only_space() {
    assert_eq!(skip_lws(&b"   ".to_vec(), 0, true), Some(3));
}

#[test]
fn field_name_stops_at_colon() {
    done(
        parse_field_name(&b"Content-Type: 3\r\n".to_vec(), 0, false),
        FieldName(b"Content-Type".to_vec()),
        12,
    );
    done(
        parse_field_name(&b" Content-Type \t: 3\r\n".to_vec(), 0, false),
        FieldName(b"Content-Type".to_vec()),
        15,
    );
    assert!(matches!(
        parse_field_name(&b"no colon here".to_vec(), 0, true),
        Step::Fail
    ));
    assert!(matches!(
        parse_field_name(&b"no colon yet".to_vec(), 0, false),
        Step::More
    ));
}

#[test]
fn field_content_token() {
    done(
        parse_field_content(&b"ab ".to_vec(), 0, false),
        FieldContent(b"ab".to_vec()),
        2,
    );
    assert!(matches!(parse_field_content(&b"".to_vec(), 0, true), Step::Fail));
}

#[test]
fn field_value_tokens() {
    done(
        parse_field_value(&b"ab  \tcd\r\n".to_vec(), 0, false),
        FieldValue(vec![
            FieldContent(b"ab".to_vec()),
            FieldContent(b"cd".to_vec()),
        ]),
        7,
    );
    // trailing blanks before the line end are consumed
    done(
        parse_field_value(&b" \tab  \tcd   \r\n".to_vec(), 0, false),
        FieldValue(vec![
            FieldContent(b"ab".to_vec()),
            FieldContent(b"cd".to_vec()),
        ]),
        12,
    );
    done(parse_field_value(&b"   \t".to_vec(), 0, true), FieldValue(vec![]), 4);
    done(parse_field_value(&b" \r\n".to_vec(), 0, true), FieldValue(vec![]), 1);
}

#[test]
fn message_header_line() {
    done(
        parse_message_header(&b"Content-Length: 3 4 5\r\n".to_vec(), 0, false),
        MessageHeader {
            field_name: FieldName(b"Content-Length".to_vec()),
            field_value: Some(FieldValue(vec![
                FieldContent(b"3".to_vec()),
                FieldContent(b"4".to_vec()),
                FieldContent(b"5".to_vec()),
            ])),
        },
        21,
    );
}

#[test]
fn message_header_empty_value_line() {
    done(
        parse_message_header(&b"Content-Length: \r\n".to_vec(), 0, false),
        MessageHeader {
            field_name: FieldName(b"Content-Length".to_vec()),
            field_value: None,
        },
        16,
    );
    // parsing the serialized empty-value form yields no value
    done(
        parse_message_header(&b"name:".to_vec(), 0, true),
        MessageHeader {
            field_name: FieldName(b"name".to_vec()),
            field_value: None,
        },
        5,
    );
    assert!(matches!(
        parse_message_header(&b"\r\n".to_vec(), 0, true),
        Step::Fail
    ));
}

#[test]
fn request_no_body() {
    let input = b"GET /user-agent HTTP/2.0\r\n\
Host: localhost:4221\r\n\
User-Agent: foobar/1.2.3\r\n\
Accept: */*\r\n\
\r\n"
        .to_vec();
    match parse_request(&input, 0, true) {
        Step::Done { value, next } => {
            assert_eq!(next, input.len());
            assert_eq!(value.request_line.method, Method::Get);
            assert_eq!(value.headers.len(), 3);
            assert_eq!(value.headers[1].field_name, FieldName(b"User-Agent".to_vec()));
            assert_eq!(value.body, None);
        }
        _ => panic!("request should parse"),
    }
}

#[test]
fn request_with_body() {
    let input = b"GET / HTTP/1.1\r\nContent-Length: 10\r\n\r\n0123456789extra".to_vec();
    match parse_request(&input, 0, true) {
        Step::Done { value, next } => {
            assert_eq!(value.body.unwrap().0, b"0123456789".to_vec());
            // exactly ten bytes are consumed; the rest stays
            assert_eq!(next, input.len() - 5);
        }
        _ => panic!("request should parse"),
    }
}

#[test]
fn request_without_valid_content_length_has_no_body() {
    let input = b"GET / HTTP/1.1\r\nContent-Length: zero\r\n\r\n0123456789".to_vec();
    match parse_request(&input, 0, true) {
        Step::Done { value, next } => {
            assert_eq!(value.body, None);
            assert_eq!(next, input.len() - 10);
        }
        _ => panic!("request should parse"),
    }
    let multi = b"GET / HTTP/1.1\r\nContent-Length: 3 4 5\r\n\r\nxyz".to_vec();
    match parse_request(&multi, 0, true) {
        Step::Done { value, .. } => assert_eq!(value.body, None),
        _ => panic!("request should parse"),
    }
}

#[test]
fn body_shorter_than_announced() {
    let input = b"GET / HTTP/1.1\r\nContent-Length: 9\r\n\r\nshort".to_vec();
    assert!(matches!(parse_request(&input, 0, false), Step::More));
    assert!(matches!(parse_request(&input, 0, true), Step::Fail));
}

#[test]
fn find_header_last_match_wins() {
    let input =
        b"GET / HTTP/1.1\r\nX-Tag: first\r\nOther: v\r\nX-Tag: second\r\n\r\n".to_vec();
    let req: Request = match parse_request(&input, 0, true) {
        Step::Done { value, .. } => value,
        _ => panic!("request should parse"),
    };
    let h = req.find_header(b"X-Tag").expect("header should be found");
    assert_eq!(
        h.field_value,
        Some(FieldValue(vec![FieldContent(b"second".to_vec())]))
    );
    assert_eq!(req.find_value(b"X-Tag"), Some(b"second".to_vec()));
    assert!(req.find_header(b"x-tag").is_none());
}

#[test]
fn stream_parser_incremental() {
    let mut p = StreamParser::new();
    p.feed(b"GET /echo/ab HT");
    assert!(matches!(p.parse(), ParseStep::NeedMore));
    p.feed(b"TP/1.1\r\n\r\nGET / HTTP/1.1\r\n\r\n");
    match p.parse() {
        ParseStep::Done(req) => {
            assert_eq!(req.request_line.request_uri, RequestURI(b"/echo/ab".to_vec()));
        }
        _ => panic!("first request should parse"),
    }
    // the second pipelined request is still buffered, byte for byte
    assert_eq!(p.complete_buffer().as_slice(), b"GET / HTTP/1.1\r\n\r\n");
    match p.parse_complete() {
        Ok(req) => assert_eq!(req.request_line.request_uri, RequestURI(b"/".to_vec())),
        Err(_) => panic!("second request should parse"),
    }
    assert!(p.parse_complete().is_err());
}

#[test]
fn vec_u8_to_u32_reads_decimal() {
    assert_eq!(http_server::lex::vec_u8_to_u32(&b"123".to_vec()).unwrap(), 123);
    assert_eq!(http_server::lex::vec_u8_to_u32(&b"+7".to_vec()).unwrap(), 7);
    assert!(http_server::lex::vec_u8_to_u32(&b"".to_vec()).is_err());
    assert!(http_server::lex::vec_u8_to_u32(&b"12a".to_vec()).is_err());
    assert!(http_server::lex::vec_u8_to_u32(&b"5000000000".to_vec()).is_err());
}

#[test]
fn u64_to_dec_renders_decimal() {
    assert_eq!(http_server::lex::u64_to_dec(0), b"0");
    assert_eq!(http_server::lex::u64_to_dec(1234), b"1234");
}
