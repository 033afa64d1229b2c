//! The request data model: methods, the request-URI, the request-line, and
//! the parsed request with its header accessors.

use vstd::prelude::*;

verus! {

use crate::lex::{CR, LF, SP};
use crate::message::{
    join_tokens, version_bytes, HeaderV, HttpVersion, MessageBody, MessageHeader,
};

/// A request method: the closed set plus a catch-all for other tokens, with
/// case preserved.
#[derive(Debug, PartialEq, Eq, Clone)]
pub enum Method {
    Get,
    Post,
    Extension(Vec<u8>),
}

/// The request-URI: a raw run of non-whitespace bytes, not decoded.
#[derive(Debug, PartialEq, Eq, Clone)]
pub struct RequestURI(pub Vec<u8>);

/// The first line of a request: method, URI and protocol version.
#[derive(Debug, PartialEq, Eq, Clone)]
pub struct RequestLine {
    pub method: Method,
    pub request_uri: RequestURI,
    pub http_version: HttpVersion,
}

/// A parsed request: its request-line, headers in order of appearance
/// (duplicates allowed), and its body if one was framed.
#[derive(Debug, PartialEq, Eq)]
pub struct Request {
    pub request_line: RequestLine,
    pub headers: Vec<MessageHeader>,
    pub body: Option<MessageBody>,
}

/// The mathematical shape of a method.
pub ghost enum MethodV {
    Get,
    Post,
    Extension(Seq<u8>),
}

/// The mathematical shape of a request-line.
pub ghost struct RequestLineV {
    pub method: MethodV,
    pub uri: Seq<u8>,
    pub version: HttpVersion,
}

/// The mathematical shape of a request.
pub ghost struct RequestV {
    pub line: RequestLineV,
    pub headers: Seq<HeaderV>,
    pub body: Option<Seq<u8>>,
}

impl View for Method {
    type V = MethodV;

    open spec fn view(&self) -> MethodV {
        match self {
            Method::Get => MethodV::Get,
            Method::Post => MethodV::Post,
            Method::Extension(b) => MethodV::Extension(b@),
        }
    }
}

impl View for RequestURI {
    type V = Seq<u8>;

    open spec fn view(&self) -> Seq<u8> {
        self.0@
    }
}

impl View for RequestLine {
    type V = RequestLineV;

    open spec fn view(&self) -> RequestLineV {
        RequestLineV { method: self.method@, uri: self.request_uri@, version: self.http_version }
    }
}

impl View for Request {
    type V = RequestV;

    open spec fn view(&self) -> RequestV {
        RequestV {
            line: self.request_line@,
            headers: self.headers@.map_values(|h: MessageHeader| h@),
            body: match self.body {
                Some(b) => Some(b@),
                None => None,
            },
        }
    }
}

/// The wire rendering of a method token. The known methods render in upper
/// case; an extension renders as the bytes that were received.
pub open spec fn method_bytes(m: MethodV) -> Seq<u8> {
    match m {
        MethodV::Get => seq![71u8, 69u8, 84u8],
        MethodV::Post => seq![80u8, 79u8, 83u8, 84u8],
        MethodV::Extension(b) => b,
    }
}

/// The normalized wire rendering of a request-line: single-space separators
/// and a trailing CRLF.
pub open spec fn request_line_bytes(rl: RequestLineV) -> Seq<u8> {
    method_bytes(rl.method) + seq![SP] + rl.uri + seq![SP] + version_bytes(rl.version) + seq![
        CR,
        LF,
    ]
}

/// The most recent index in `hs` whose name is exactly `name`, if any.
pub open spec fn spec_find_header(hs: Seq<HeaderV>, name: Seq<u8>) -> Option<int>
    decreases hs.len(),
{
    if hs.len() == 0 {
        None
    } else if hs.last().name == name {
        Some(hs.len() - 1)
    } else {
        spec_find_header(hs.drop_last(), name)
    }
}

/// What `spec_find_header` finds is the most recent exact match.
pub proof fn lemma_find_header(hs: Seq<HeaderV>, name: Seq<u8>)
    ensures
        match spec_find_header(hs, name) {
            Some(i) => 0 <= i < hs.len() && hs[i].name == name && (forall|j: int|
                i < j < hs.len() ==> hs[j].name != name),
            None => forall|j: int| 0 <= j < hs.len() ==> hs[j].name != name,
        },
    decreases hs.len(),
{
    if hs.len() > 0 && hs.last().name != name {
        lemma_find_header(hs.drop_last(), name);
        assert(forall|j: int| 0 <= j < hs.len() - 1 ==> hs.drop_last()[j] == hs[j]);
    }
}

/// The joined value of the most recent header named `name`: its tokens with
/// single spaces between them, or nothing if the header is absent or carries
/// no value.
pub open spec fn spec_find_value(hs: Seq<HeaderV>, name: Seq<u8>) -> Option<Seq<u8>> {
    match spec_find_header(hs, name) {
        None => None,
        Some(i) => match hs[i].value {
            None => None,
            Some(toks) => Some(join_tokens(toks)),
        },
    }
}

/// The first value token of the most recent header named `name`, if that
/// header exists and carries a value.
pub open spec fn spec_first_value_content(hs: Seq<HeaderV>, name: Seq<u8>) -> Option<Seq<u8>> {
    match spec_find_header(hs, name) {
        None => None,
        Some(i) => match hs[i].value {
            None => None,
            Some(toks) => if toks.len() > 0 {
                Some(toks[0])
            } else {
                None
            },
        },
    }
}

impl Method {
    /// The method's wire rendering.
    pub fn to_bytes(&self) -> (r: Vec<u8>)
        ensures
            r@ == method_bytes(self@),
    {
        match self {
            Method::Get => {
                let mut out: Vec<u8> = Vec::new();
                out.push(71);
                out.push(69);
                out.push(84);
                proof {
                    assert(out@ =~= method_bytes(self@));
                }
                out
            },
            Method::Post => {
                let mut out: Vec<u8> = Vec::new();
                out.push(80);
                out.push(79);
                out.push(83);
                out.push(84);
                proof {
                    assert(out@ =~= method_bytes(self@));
                }
                out
            },
            Method::Extension(b) => crate::lex::clone_bytes(b),
        }
    }
}

impl RequestLine {
    /// The request-line's normalized wire rendering: method token, single
    /// spaces, version, trailing CRLF.
    pub fn into_bytes(self) -> (r: Vec<u8>)
        ensures
            r@ == request_line_bytes(self@),
    {
        let ghost v = self@;
        let mut out = self.method.to_bytes();
        out.push(SP);
        let mut uri = self.request_uri.0;
        out.append(&mut uri);
        out.push(SP);
        let mut ver = self.http_version.into_bytes();
        out.append(&mut ver);
        out.push(CR);
        out.push(LF);
        proof {
            assert(out@ =~= request_line_bytes(v));
        }
        out
    }
}

impl Request {
    /// The request's method.
    pub fn method(&self) -> (m: &Method)
        ensures
            m == &self.request_line.method,
    {
        &self.request_line.method
    }

    /// The most recently appended header whose name is exactly `header`.
    pub fn find_header(&self, header: &[u8]) -> (r: Option<&MessageHeader>)
        ensures
            match spec_find_header(self@.headers, header@) {
                Some(i) => r matches Some(h) && h@ == self@.headers[i],
                None => r is None,
            },
    {
        let ghost hs = self@.headers;
        proof {
            assert(hs.take(hs.len() as int) =~= hs);
        }
        let mut k: usize = self.headers.len();
        while k > 0
            invariant
                k <= self.headers@.len(),
                hs == self@.headers,
                hs.len() == self.headers@.len(),
                spec_find_header(hs, header@) == spec_find_header(hs.take(k as int), header@),
            decreases k,
        {
            k = k - 1;
            let name = &self.headers[k].field_name.0;
            if crate::lex::bytes_eq(name.as_slice(), header) {
                proof {
                    assert(hs.take(k + 1).last() == hs[k as int]);
                    assert(hs[k as int].name == header@);
                    assert(spec_find_header(hs.take(k + 1), header@) == Some(k as int));
                }
                return Some(&self.headers[k]);
            }
            proof {
                assert(hs.take(k + 1).last() == hs[k as int]);
                assert(hs.take(k + 1).drop_last() =~= hs.take(k as int));
            }
        }
        proof {
            assert(hs.take(0) =~= Seq::<HeaderV>::empty());
        }
        None
    }

    /// The joined value of the most recent header named `header`.
    pub fn find_value(&self, header: &[u8]) -> (r: Option<Vec<u8>>)
        ensures
            match spec_find_value(self@.headers, header@) {
                Some(v) => r matches Some(b) && b@ == v,
                None => r is None,
            },
    {
        match self.find_header(header) {
            None => None,
            Some(h) => match &h.field_value {
                None => None,
                Some(value) => Some(value.joined()),
            },
        }
    }

    /// The first value token of the most recent header named `header`.
    pub fn first_value_content(&self, header: &[u8]) -> (r: Option<Vec<u8>>)
        ensures
            match spec_first_value_content(self@.headers, header@) {
                Some(v) => r matches Some(b) && b@ == v,
                None => r is None,
            },
    {
        match self.find_header(header) {
            None => None,
            Some(h) => match &h.field_value {
                None => None,
                Some(value) => {
                    if value.0.len() > 0 {
                        Some(crate::lex::clone_bytes(&value.0[0].0))
                    } else {
                        None
                    }
                },
            },
        }
    }
}

} // verus!
