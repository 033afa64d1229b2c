use http_server::status::{HttpHeader, HttpResponse, HttpStatus, TextResponse};

#[test]
fn test_message_from_string() {}

#[test]
fn test_http_status_str_200() {
    assert_eq!(HttpStatus::OK.to_string(), "HTTP/1.1 200 OK\r\n");
}

#[test]
fn test_http_status_str_400() {
    assert_eq!(
        HttpStatus::NotFound.to_string(),
        "HTTP/1.1 404 Not Found\r\n"
    );
}

#[test]
fn test_http_header() {
    assert_eq!(
        HttpHeader {
            content_type: "text/plain".to_string(),
            content_length: 3
        }
        .to_string(),
        "Content-Type: text/plain\r\nContent-Length: 3\r\n"
    )
}

#[test]
fn test_response_non_empty() {
    let resp = TextResponse::text_response("abc");
    assert_eq!(
        resp.to_string(),
        "\
Content-Type: text/plain\r\n\
Content-Length: 3\r\n\
\r\n\
abc"
    )
}

#[test]
fn test_response_empty() {
    let resp = TextResponse::default();
    assert_eq!(
        resp.to_string(),
        "\
\r\n"
    )
}

#[test]
fn test_http_response_non_empty() {
    let resp = HttpResponse {
        status: HttpStatus::OK,
        response: TextResponse::text_response("abcd"),
    };

    assert_eq!(
        resp.to_string(),
        "\
HTTP/1.1 200 OK\r\n\
Content-Type: text/plain\r\n\
Content-Length: 4\r\n\
\r\n\
abcd"
    );
}

#[test]
fn test_http_response_empty() {
    let resp = HttpResponse {
        status: HttpStatus::OK,
        response: TextResponse::default(),
    };

    assert_eq!(
        resp.to_string(),
        "\
HTTP/1.1 200 OK\r\n\r\n"
    );
}
