use http_server::message::{
    FieldContent, FieldName, FieldValue, HttpVersion, MessageBody, MessageHeader,
};
use http_server::request::{Method, RequestLine, RequestURI};
use http_server::response::{Response, Status, StatusLine};

#[test]
fn field_name() {
    assert_eq!(FieldName(b"name".to_vec()).into_bytes(), b"name")
}

#[test]
fn field_content() {
    assert_eq!(FieldContent(b"content".to_vec()).into_bytes(), b"content")
}

#[test]
fn field_value() {
    assert_eq!(
        FieldValue(vec![
            FieldContent(b"content1".to_vec()),
            FieldContent(b"content2".to_vec()),
        ])
        .into_bytes(),
        b"content1 content2"
    )
}

#[test]
fn message_header() {
    assert_eq!(
        MessageHeader {
            field_name: FieldName(b"name".to_vec()),
            field_value: Some(FieldValue(vec![
                FieldContent(b"content1".to_vec()),
                FieldContent(b"content2".to_vec()),
            ]))
        }
        .into_bytes(),
        b"name: content1 content2"
    )
}

#[test]
fn message_header_empty_value() {
    assert_eq!(
        MessageHeader {
            field_name: FieldName(b"name".to_vec()),
            field_value: None,
        }
        .into_bytes(),
        b"name:"
    )
}

#[test]
fn message_body() {
    assert_eq!(MessageBody(b"body".to_vec()).into_bytes(), b"body")
}

#[test]
fn http_status() {
    assert_eq!(HttpVersion { major: 2, minor: 0 }.into_bytes(), b"HTTP/2.0");
}

#[test]
fn status_200() {
    assert_eq!(Status::OK.into_bytes(), b"200 OK");
}

#[test]
fn status_201() {
    assert_eq!(Status::Created.into_bytes(), b"201 Created");
}

#[test]
fn status_404() {
    assert_eq!(Status::NotFound.into_bytes(), b"404 Not Found");
}

#[test]
fn status_line() {
    assert_eq!(
        StatusLine {
            http_version: HttpVersion { major: 2, minor: 0 },
            status: Status::OK,
        }
        .into_bytes(),
        b"HTTP/2.0 200 OK\r\n"
    );
}

#[test]
fn request() {
    assert_eq!(
        Response {
            status_line: StatusLine {
                http_version: HttpVersion { major: 2, minor: 0 },
                status: Status::OK,
            },
            headers: vec![
                MessageHeader {
                    field_name: FieldName(b"header1".to_vec()),
                    field_value: Some(FieldValue(vec![
                        FieldContent(b"a".to_vec()),
                        FieldContent(b"b".to_vec()),
                    ]))
                },
                MessageHeader {
                    field_name: FieldName(b"header2".to_vec()),
                    field_value: Some(FieldValue(vec![
                        FieldContent(b"c".to_vec()),
                        FieldContent(b"d".to_vec()),
                    ]))
                }
            ],
            body: Some(MessageBody(b"message body".to_vec())),
        }
        .into_bytes(),
        b"\
HTTP/2.0 200 OK\r
header1: a b\r
header2: c d\r
\r
message body"
    );
}

#[test]
fn test_method_to_bytes() {
    assert_eq!(Method::Get.to_bytes(), b"GET");
    assert_eq!(Method::Extension(b"SomeMethod".to_vec()).to_bytes(), b"SomeMethod");
}

#[test]
fn request_line_to_bytes() {
    let rl = RequestLine {
        method: Method::Get,
        request_uri: RequestURI(b"/user-agent".to_vec()),
        http_version: HttpVersion { major: 1, minor: 1 },
    };
    assert_eq!(rl.into_bytes(), b"GET /user-agent HTTP/1.1\r\n");
}

#[test]
fn set_header_replaces_in_place() {
    let mut resp = Response {
        status_line: StatusLine {
            http_version: HttpVersion { major: 1, minor: 1 },
            status: Status::OK,
        },
        headers: vec![],
        body: None,
    };
    resp.set_header(b"A".to_vec(), b"1".to_vec());
    resp.set_header(b"B".to_vec(), b"2".to_vec());
    resp.set_header(b"A".to_vec(), b"3".to_vec());
    assert_eq!(
        resp.into_bytes(),
        b"HTTP/1.1 200 OK\r\nA: 3\r\nB: 2\r\n\r\n"
    );
}
