use std::io::Read;

use http_server::handler::{FileOutcome, HandleStep};
use http_server::parse::Step;
use http_server::parser::parse_request;
use http_server::request::{Request, RequestURI};
use http_server::routes::Route;
use http_server::{handle_request, Cli, ServerResponse};

#[test]
fn root() {
    assert_eq!(Route::from_uri(&RequestURI(b"/".to_vec())), Route::Root);
}

#[test]
fn echo() {
    assert_eq!(
        Route::from_uri(&RequestURI(b"/echo/something".to_vec())),
        Route::Echo {
            command: b"something".to_vec()
        }
    );
}

#[test]
fn user_agent() {
    assert_eq!(
        Route::from_uri(&RequestURI(b"/user-agent".to_vec())),
        Route::UserAgent,
    );
}

#[test]
fn files() {
    assert_eq!(
        Route::from_uri(&RequestURI(b"/files/foo".to_vec())),
        Route::Files {
            filename: b"foo".to_vec()
        },
    );
}

#[test]
fn unknown() {
    assert_eq!(
        Route::from_uri(&RequestURI(b"/something".to_vec())),
        Route::Unknown
    );
}

#[test]
fn routes_root() {
    assert_eq!(Route::from_uri(&RequestURI(b"/".to_vec())), Route::Root);
}

#[test]
fn routes_echo() {
    assert_eq!(
        Route::from_uri(&RequestURI(b"/echo/something".to_vec())),
        Route::Echo {
            command: b"something".to_vec()
        }
    );
}

#[test]
fn routes_user_agent() {
    assert_eq!(
        Route::from_uri(&RequestURI(b"/user-agent".to_vec())),
        Route::UserAgent,
    );
}

#[test]
fn routes_unknown() {
    assert_eq!(
        Route::from_uri(&RequestURI(b"/something".to_vec())),
        Route::Unknown
    );
}

#[test]
fn echo_segments_concatenate_without_slashes() {
    assert_eq!(
        Route::from_uri(&RequestURI(b"/echo/a/b/c".to_vec())),
        Route::Echo {
            command: b"abc".to_vec()
        }
    );
}

fn parse(input: &[u8]) -> Request {
    match parse_request(&input.to_vec(), 0, true) {
        Step::Done { value, .. } => value,
        _ => panic!("request should parse"),
    }
}

fn respond(input: &[u8]) -> Vec<u8> {
    match handle_request(Cli { directory: None }, parse(input)) {
        HandleStep::Done(ServerResponse::Continue(bytes)) => bytes,
        _ => panic!("request should produce a finished response"),
    }
}

#[test]
fn scenario_root_ok() {
    assert_eq!(respond(b"GET / HTTP/1.1\r\n\r\n"), b"HTTP/1.1 200 OK\r\n\r\n");
}

#[test]
fn scenario_echo() {
    assert_eq!(
        respond(b"GET /echo/abc HTTP/1.1\r\n\r\n"),
        b"HTTP/1.1 200 OK\r\nContent-Type: text/plain\r\nContent-Length: 3\r\n\r\nabc"
    );
}

#[test]
fn scenario_user_agent() {
    assert_eq!(
        respond(b"GET /user-agent HTTP/1.1\r\nUser-Agent: foo/1.0\r\n\r\n"),
        b"HTTP/1.1 200 OK\r\nContent-Type: text/plain\r\nContent-Length: 7\r\n\r\nfoo/1.0"
    );
}

#[test]
fn scenario_files_post_creates() {
    let req = parse(b"POST /files/test.txt HTTP/1.1\r\nContent-Length: 5\r\n\r\nhello");
    let cli = Cli {
        directory: Some("D".to_string()),
    };
    match handle_request(cli, req) {
        HandleStep::FileWrite {
            handler,
            filename,
            content,
        } => {
            // the action asks for exactly this file with exactly the body
            assert_eq!(filename, b"test.txt".to_vec());
            assert_eq!(content, b"hello".to_vec());
            match handler.finish_file(FileOutcome::Created) {
                ServerResponse::Continue(bytes) => {
                    assert_eq!(bytes, b"HTTP/1.1 201 Created\r\n\r\n");
                }
                _ => panic!("connection should stay open"),
            }
        }
        _ => panic!("a POST to files should ask for a file write"),
    }
}

#[test]
fn scenario_files_missing() {
    let req = parse(b"GET /files/missing.txt HTTP/1.1\r\n\r\n");
    let cli = Cli {
        directory: Some("D".to_string()),
    };
    match handle_request(cli, req) {
        HandleStep::FileRead { handler, filename } => {
            assert_eq!(filename, b"missing.txt".to_vec());
            match handler.finish_file(FileOutcome::Missing) {
                ServerResponse::Continue(bytes) => {
                    assert_eq!(bytes, b"HTTP/1.1 404 Not Found\r\n\r\n");
                }
                _ => panic!("connection should stay open"),
            }
        }
        _ => panic!("a GET from files should ask for a file read"),
    }
}

#[test]
fn scenario_files_read_found() {
    let req = parse(b"GET /files/a.bin HTTP/1.1\r\n\r\n");
    match handle_request(Cli { directory: Some("D".to_string()) }, req) {
        HandleStep::FileRead { handler, filename } => {
            assert_eq!(filename, b"a.bin".to_vec());
            match handler.finish_file(FileOutcome::Data(b"12345678".to_vec())) {
                ServerResponse::Continue(bytes) => {
                    assert_eq!(
                        bytes,
                        b"HTTP/1.1 200 OK\r\nContent-Type: application/octet-stream\r\nContent-Length: 8\r\n\r\n12345678"
                    );
                }
                _ => panic!("connection should stay open"),
            }
        }
        _ => panic!("a GET from files should ask for a file read"),
    }
}

#[test]
fn files_invalid_name_is_404() {
    let req = parse(b"GET /files/bad HTTP/1.1\r\n\r\n");
    match handle_request(Cli { directory: Some("D".to_string()) }, req) {
        HandleStep::FileRead { handler, .. } => {
            match handler.finish_file(FileOutcome::InvalidName) {
                ServerResponse::Continue(bytes) => {
                    assert_eq!(bytes, b"HTTP/1.1 404 Not Found\r\n\r\n");
                }
                _ => panic!("connection should stay open"),
            }
        }
        _ => panic!("a GET from files should ask for a file read"),
    }
}

#[test]
fn echo_empty_command_is_200_with_no_body() {
    assert_eq!(
        respond(b"GET /echo HTTP/1.1\r\n\r\n"),
        b"HTTP/1.1 200 OK\r\nContent-Type: text/plain\r\n\r\n"
    );
}

#[test]
fn scenario_unknown_404() {
    assert_eq!(
        respond(b"GET /nope HTTP/1.1\r\n\r\n"),
        b"HTTP/1.1 404 Not Found\r\n\r\n"
    );
}

#[test]
fn post_to_root_is_404() {
    assert_eq!(
        respond(b"POST / HTTP/1.1\r\n\r\n"),
        b"HTTP/1.1 404 Not Found\r\n\r\n"
    );
}

#[test]
fn user_agent_missing_is_404() {
    assert_eq!(
        respond(b"GET /user-agent HTTP/1.1\r\n\r\n"),
        b"HTTP/1.1 404 Not Found\r\n\r\n"
    );
}

#[test]
fn echo_gzip_round_trips() {
    let bytes = respond(b"GET /echo/hello HTTP/1.1\r\nAccept-Encoding: gzip\r\n\r\n");
    let text = bytes.clone();
    let split = text
        .windows(4)
        .position(|w| w == b"\r\n\r\n")
        .expect("response should carry a blank line");
    let head = &text[..split];
    let body = &text[split + 4..];
    let head_str = String::from_utf8(head.to_vec()).unwrap();
    assert!(head_str.contains("Content-Encoding: gzip"));
    assert!(head_str.contains(&format!("Content-Length: {}", body.len())));
    // the body must be the gzip form of the echoed command, not the raw bytes
    assert_ne!(body, b"hello");
    let mut decoder = flate2::read::GzDecoder::new(body);
    let mut plain = Vec::new();
    decoder.read_to_end(&mut plain).expect("body should be gzip data");
    assert_eq!(plain, b"hello");
}

#[test]
fn gzip_without_body_adds_no_encoding_header() {
    assert_eq!(
        respond(b"GET / HTTP/1.1\r\nAccept-Encoding: gzip\r\n\r\n"),
        b"HTTP/1.1 200 OK\r\n\r\n"
    );
}

#[test]
fn gzip_negotiation_is_case_sensitive_and_trimmed() {
    // a trimmed token must equal the literal `gzip` exactly
    let bytes = respond(b"GET /echo/x HTTP/1.1\r\nAccept-Encoding: GZIP\r\n\r\n");
    assert_eq!(
        bytes,
        b"HTTP/1.1 200 OK\r\nContent-Type: text/plain\r\nContent-Length: 1\r\n\r\nx"
    );
    let bytes = respond(b"GET /echo/x HTTP/1.1\r\nAccept-Encoding: deflate, gzip\r\n\r\n");
    let head = String::from_utf8_lossy(&bytes).to_string();
    assert!(head.contains("Content-Encoding: gzip"));
}
