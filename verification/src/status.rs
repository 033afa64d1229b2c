//! A small fixed-form response writer: a status line for the two statuses
//! it knows, a `text/plain` header pair, and the assembled response text.
//! Everything renders to `String`s with exact contents.

use vstd::prelude::*;

verus! {

use vstd::string::StringSliceAdditionalSpecFns;

/// Decimal digits of `n`, as characters, most significant first.
pub open spec fn dec_chars(n: nat) -> Seq<char>
    decreases n,
{
    if n < 10 {
        seq![digit_char(n)]
    } else {
        dec_chars(n / 10).push(digit_char(n % 10))
    }
}

pub open spec fn digit_char(d: nat) -> char {
    if d == 0 {
        '0'
    } else if d == 1 {
        '1'
    } else if d == 2 {
        '2'
    } else if d == 3 {
        '3'
    } else if d == 4 {
        '4'
    } else if d == 5 {
        '5'
    } else if d == 6 {
        '6'
    } else if d == 7 {
        '7'
    } else if d == 8 {
        '8'
    } else {
        '9'
    }
}

fn digit_str(d: u64) -> (r: &'static str)
    requires
        d < 10,
    ensures
        r@ == seq![digit_char(d as nat)],
{
    proof {
        reveal_strlit("0");
        reveal_strlit("1");
        reveal_strlit("2");
        reveal_strlit("3");
        reveal_strlit("4");
        reveal_strlit("5");
        reveal_strlit("6");
        reveal_strlit("7");
        reveal_strlit("8");
        reveal_strlit("9");
    }
    let r = if d == 0 {
        "0"
    } else if d == 1 {
        "1"
    } else if d == 2 {
        "2"
    } else if d == 3 {
        "3"
    } else if d == 4 {
        "4"
    } else if d == 5 {
        "5"
    } else if d == 6 {
        "6"
    } else if d == 7 {
        "7"
    } else if d == 8 {
        "8"
    } else {
        "9"
    };
    proof {
        assert(r@ =~= seq![digit_char(d as nat)]);
    }
    r
}

/// `n` in decimal, as a string.
pub fn u64_to_string(n: u64) -> (s: String)
    ensures
        s@ == dec_chars(n as nat),
    decreases n,
{
    if n < 10 {
        let s = String::from_str(digit_str(n));
        proof {
            assert(s@ =~= dec_chars(n as nat));
        }
        s
    } else {
        let s = u64_to_string(n / 10).concat(digit_str(n % 10));
        proof {
            assert(s@ =~= dec_chars(n as nat));
        }
        s
    }
}

/// The statuses this writer knows, each with its fixed status line.
#[derive(Debug)]
pub enum HttpStatus {
    OK,
    NotFound,
}

impl HttpStatus {
    /// The fixed status line, CRLF included.
    pub fn to_string(&self) -> (r: String)
        ensures
            r@ == match self {
                HttpStatus::OK => "HTTP/1.1 200 OK\r\n"@,
                HttpStatus::NotFound => "HTTP/1.1 404 Not Found\r\n"@,
            },
    {
        match self {
            HttpStatus::OK => String::from_str("HTTP/1.1 200 OK\r\n"),
            HttpStatus::NotFound => String::from_str("HTTP/1.1 404 Not Found\r\n"),
        }
    }
}

/// The fixed header pair this writer emits: a content type and a length.
#[derive(Debug)]
pub struct HttpHeader {
    pub content_type: String,
    pub content_length: usize,
}

impl HttpHeader {
    /// Both header lines, CRLF-terminated.
    pub fn to_string(&self) -> (r: String)
        ensures
            r@ == "Content-Type: "@ + self.content_type@ + "\r\n"@ + "Content-Length: "@
                + dec_chars(self.content_length as nat) + "\r\n"@,
    {
        let s = String::from_str("Content-Type: ").concat(self.content_type.as_str()).concat(
            "\r\n",
        ).concat("Content-Length: ").concat(u64_to_string(self.content_length as u64).as_str())
            .concat("\r\n");
        s
    }
}

/// A body with its header pair, or neither: the part of a response after
/// the status line.
#[derive(Debug, Default)]
pub struct TextResponse {
    pub header: Option<HttpHeader>,
    pub body: Option<String>,
}

impl TextResponse {
    /// A `text/plain` response around `s`, with its exact byte length.
    pub fn text_response(s: &str) -> (r: TextResponse)
        ensures
            r.header matches Some(h) && h.content_type@ == "text/plain"@ && h.content_length
                == s.spec_bytes().len() as usize,
            r.body matches Some(b) && b@ == s@,
    {
        let header = Some(
            HttpHeader { content_type: String::from_str("text/plain"), content_length: s.len() },
        );
        let body = Some(s.to_owned());
        TextResponse { header, body }
    }

    /// The rendering after the status line: the header lines if any, the
    /// blank line, then the body if any.
    pub fn to_string(&self) -> (r: String)
        ensures
            r@ == (match self.header {
                Some(h) => "Content-Type: "@ + h.content_type@ + "\r\n"@ + "Content-Length: "@
                    + dec_chars(h.content_length as nat) + "\r\n"@,
                None => Seq::<char>::empty(),
            }) + "\r\n"@ + (match self.body {
                Some(b) => b@,
                None => Seq::<char>::empty(),
            }),
    {
        let head = match &self.header {
            Some(h) => h.to_string(),
            None => String::new(),
        };
        let mut out = head.concat("\r\n");
        match &self.body {
            Some(b) => {
                out.append(b.as_str());
            },
            None => {},
        }
        proof {
            assert(out@ =~= (match self.header {
                Some(h) => "Content-Type: "@ + h.content_type@ + "\r\n"@ + "Content-Length: "@
                    + dec_chars(h.content_length as nat) + "\r\n"@,
                None => Seq::<char>::empty(),
            }) + "\r\n"@ + (match self.body {
                Some(b) => b@,
                None => Seq::<char>::empty(),
            }));
        }
        out
    }
}

/// A full fixed-form response: status line, then the text part.
#[derive(Debug)]
pub struct HttpResponse {
    pub status: HttpStatus,
    pub response: TextResponse,
}

impl HttpResponse {
    /// An empty response with the given status.
    pub fn new(status: HttpStatus) -> (r: HttpResponse)
        ensures
            r.status == status,
            r.response.header is None,
            r.response.body is None,
    {
        HttpResponse { status, response: TextResponse { header: None, body: None } }
    }

    /// The same response, its text part replaced by a `text/plain` body.
    pub fn with_text_response(self, text: &str) -> (r: HttpResponse)
        ensures
            r.status == self.status,
            r.response.header matches Some(h) && h.content_type@ == "text/plain"@
                && h.content_length == text.spec_bytes().len() as usize,
            r.response.body matches Some(b) && b@ == text@,
    {
        let response = TextResponse::text_response(text);
        HttpResponse { status: self.status, response }
    }

    /// The full response text: the status line, then the text part.
    pub fn to_string(&self) -> (r: String)
        ensures
            r@ == (match self.status {
                HttpStatus::OK => "HTTP/1.1 200 OK\r\n"@,
                HttpStatus::NotFound => "HTTP/1.1 404 Not Found\r\n"@,
            }) + (match self.response.header {
                Some(h) => "Content-Type: "@ + h.content_type@ + "\r\n"@ + "Content-Length: "@
                    + dec_chars(h.content_length as nat) + "\r\n"@,
                None => Seq::<char>::empty(),
            }) + "\r\n"@ + (match self.response.body {
                Some(b) => b@,
                None => Seq::<char>::empty(),
            }),
    {
        let s = self.status.to_string().concat(self.response.to_string().as_str());
        proof {
            assert(s@ =~= (match self.status {
                HttpStatus::OK => "HTTP/1.1 200 OK\r\n"@,
                HttpStatus::NotFound => "HTTP/1.1 404 Not Found\r\n"@,
            }) + (match self.response.header {
                Some(h) => "Content-Type: "@ + h.content_type@ + "\r\n"@ + "Content-Length: "@
                    + dec_chars(h.content_length as nat) + "\r\n"@,
                None => Seq::<char>::empty(),
            }) + "\r\n"@ + (match self.response.body {
                Some(b) => b@,
                None => Seq::<char>::empty(),
            }));
        }
        s
    }
}

} // verus!
