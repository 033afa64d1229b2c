//! The response data model: status codes, the status-line, the response with
//! its never-duplicated header list, and the wire rendering.

use vstd::prelude::*;

verus! {

use crate::lex::{CR, LF, SP};
use crate::message::{
    header_bytes, version_bytes, FieldContent, FieldName, FieldValue, HeaderV, HttpVersion,
    MessageBody, MessageHeader,
};

/// The statuses this server emits, each with a fixed reason phrase.
#[derive(Debug, PartialEq, Eq, Clone, Copy, Structural)]
pub enum Status {
    OK,
    Created,
    NotFound,
}

/// The first line of a response: protocol version and status.
#[derive(Debug, PartialEq, Eq, Clone, Copy, Structural)]
pub struct StatusLine {
    pub http_version: HttpVersion,
    pub status: Status,
}

/// A response: status-line, headers (never two with the same name), and the
/// body if one is set.
#[derive(Debug, PartialEq, Eq)]
pub struct Response {
    pub status_line: StatusLine,
    pub headers: Vec<MessageHeader>,
    pub body: Option<MessageBody>,
}

/// The mathematical shape of a response.
pub ghost struct ResponseV {
    pub status_line: StatusLine,
    pub headers: Seq<HeaderV>,
    pub body: Option<Seq<u8>>,
}

impl View for Response {
    type V = ResponseV;

    open spec fn view(&self) -> ResponseV {
        ResponseV {
            status_line: self.status_line,
            headers: self.headers@.map_values(|h: MessageHeader| h@),
            body: match self.body {
                Some(b) => Some(b@),
                None => None,
            },
        }
    }
}

impl Status {
    /// The numeric code of this status.
    pub fn code(&self) -> (c: u16)
        ensures
            c == match self {
                Status::OK => 200u16,
                Status::Created => 201u16,
                Status::NotFound => 404u16,
            },
    {
        match self {
            Status::OK => 200,
            Status::Created => 201,
            Status::NotFound => 404,
        }
    }

    /// The fixed reason phrase of this status.
    pub fn reason_phrase(&self) -> (r: &'static str)
        ensures
            r@ == match self {
                Status::OK => "OK"@,
                Status::Created => "Created"@,
                Status::NotFound => "Not Found"@,
            },
    {
        match self {
            Status::OK => "OK",
            Status::Created => "Created",
            Status::NotFound => "Not Found",
        }
    }

    /// The status's wire rendering: `<code> <reason-phrase>`.
    pub fn into_bytes(self) -> (r: Vec<u8>)
        ensures
            r@ == status_bytes(self),
    {
        let code = self.code();
        let mut out = crate::lex::u64_to_dec(code as u64);
        out.push(SP);
        proof {
            crate::lex::lemma_dec_rep_digits(code as nat);
        }
        match self {
            Status::OK => {
                out.push(79);
                out.push(75);
            },
            Status::Created => {
                out.push(67);
                out.push(114);
                out.push(101);
                out.push(97);
                out.push(116);
                out.push(101);
                out.push(100);
            },
            Status::NotFound => {
                out.push(78);
                out.push(111);
                out.push(116);
                out.push(SP);
                out.push(70);
                out.push(111);
                out.push(117);
                out.push(110);
                out.push(100);
            },
        }
        proof {
            assert(out@ =~= status_bytes(self));
        }
        out
    }
}

/// The status's wire rendering: the decimal code, a space, and the reason
/// phrase.
pub open spec fn status_bytes(st: Status) -> Seq<u8> {
    crate::lex::dec_rep(spec_code(st) as nat) + seq![SP] + reason_bytes(st)
}

pub open spec fn spec_code(st: Status) -> u16 {
    match st {
        Status::OK => 200u16,
        Status::Created => 201u16,
        Status::NotFound => 404u16,
    }
}

pub open spec fn reason_bytes(st: Status) -> Seq<u8> {
    match st {
        Status::OK => seq![79u8, 75u8],
        Status::Created => seq![67u8, 114u8, 101u8, 97u8, 116u8, 101u8, 100u8],
        Status::NotFound => seq![78u8, 111u8, 116u8, SP, 70u8, 111u8, 117u8, 110u8, 100u8],
    }
}

/// The status-line's wire rendering: version, space, status, CRLF.
pub open spec fn status_line_bytes(sl: StatusLine) -> Seq<u8> {
    version_bytes(sl.http_version) + seq![SP] + status_bytes(sl.status) + seq![CR, LF]
}

impl StatusLine {
    /// The status-line's wire rendering.
    pub fn into_bytes(self) -> (r: Vec<u8>)
        ensures
            r@ == status_line_bytes(self),
    {
        let mut out = self.http_version.into_bytes();
        out.push(SP);
        let mut st = self.status.into_bytes();
        out.append(&mut st);
        out.push(CR);
        out.push(LF);
        proof {
            assert(out@ =~= status_line_bytes(self));
        }
        out
    }
}

/// The header block: each header's rendering followed by CRLF, in order.
pub open spec fn headers_block_bytes(hs: Seq<HeaderV>) -> Seq<u8>
    decreases hs.len(),
{
    if hs.len() == 0 {
        Seq::empty()
    } else {
        header_bytes(hs[0]) + seq![CR, LF] + headers_block_bytes(hs.skip(1))
    }
}

pub proof fn lemma_headers_block_push(hs: Seq<HeaderV>, h: HeaderV)
    ensures
        headers_block_bytes(hs.push(h)) == headers_block_bytes(hs) + header_bytes(h) + seq![CR, LF],
    decreases hs.len(),
{
    let p = hs.push(h);
    if hs.len() == 0 {
        assert(p.skip(1) =~= Seq::<HeaderV>::empty());
        assert(headers_block_bytes(Seq::<HeaderV>::empty()) == Seq::<u8>::empty());
        assert(p[0] == h);
        assert(headers_block_bytes(p) =~= header_bytes(h) + seq![CR, LF]);
    } else {
        assert(p.skip(1) =~= hs.skip(1).push(h));
        lemma_headers_block_push(hs.skip(1), h);
        assert(headers_block_bytes(p) =~= headers_block_bytes(hs) + header_bytes(h) + seq![CR, LF]);
    }
}

/// The full response rendering: status-line, header block, a blank CRLF
/// line, then the body bytes if any, with nothing after them.
pub open spec fn response_bytes(r: ResponseV) -> Seq<u8> {
    status_line_bytes(r.status_line) + headers_block_bytes(r.headers) + seq![CR, LF] + match r.body {
        Some(b) => b,
        None => Seq::empty(),
    }
}

/// The first index in `hs` whose name is exactly `name`, if any.
pub open spec fn spec_first_index(hs: Seq<HeaderV>, name: Seq<u8>) -> Option<int>
    decreases hs.len(),
{
    if hs.len() == 0 {
        None
    } else if hs[0].name == name {
        Some(0int)
    } else {
        match spec_first_index(hs.skip(1), name) {
            Some(i) => Some(i + 1),
            None => None,
        }
    }
}

pub proof fn lemma_first_index(hs: Seq<HeaderV>, name: Seq<u8>)
    ensures
        match spec_first_index(hs, name) {
            Some(i) => 0 <= i < hs.len() && hs[i].name == name && (forall|j: int|
                0 <= j < i ==> hs[j].name != name),
            None => forall|j: int| 0 <= j < hs.len() ==> hs[j].name != name,
        },
    decreases hs.len(),
{
    if hs.len() > 0 && hs[0].name != name {
        lemma_first_index(hs.skip(1), name);
        assert(forall|j: int| 1 <= j < hs.len() ==> hs.skip(1)[j - 1] == hs[j]);
    }
}

/// A position that matches while everything before it does not is the first
/// index.
pub proof fn lemma_first_index_exact(hs: Seq<HeaderV>, name: Seq<u8>, i: int)
    requires
        0 <= i < hs.len(),
        hs[i].name == name,
        forall|j: int| 0 <= j < i ==> hs[j].name != name,
    ensures
        spec_first_index(hs, name) == Some(i),
    decreases i,
{
    if i > 0 {
        lemma_first_index_exact(hs.skip(1), name, i - 1);
    }
}

/// Setting a header that exists overwrites its value in place; otherwise the
/// header is appended. Response headers never repeat a name.
pub open spec fn spec_set_header(hs: Seq<HeaderV>, name: Seq<u8>, toks: Seq<Seq<u8>>) -> Seq<
    HeaderV,
> {
    let h = HeaderV { name, value: Some(toks) };
    match spec_first_index(hs, name) {
        Some(i) => hs.update(i, h),
        None => hs.push(h),
    }
}

/// No two headers share a name.
pub open spec fn unique_names(hs: Seq<HeaderV>) -> bool {
    forall|i: int, j: int| 0 <= i < j < hs.len() ==> hs[i].name != hs[j].name
}

pub proof fn lemma_set_header_unique(hs: Seq<HeaderV>, name: Seq<u8>, toks: Seq<Seq<u8>>)
    requires
        unique_names(hs),
    ensures
        unique_names(spec_set_header(hs, name, toks)),
        spec_set_header(hs, name, toks).len() == match spec_first_index(hs, name) {
            Some(_) => hs.len() as int,
            None => hs.len() + 1int,
        },
{
    lemma_first_index(hs, name);
    let out = spec_set_header(hs, name, toks);
    match spec_first_index(hs, name) {
        Some(i) => {
            assert forall|a: int, b: int| 0 <= a < b < out.len() implies out[a].name
                != out[b].name by {
                assert(hs[a].name != hs[b].name);
            }
        },
        None => {
            assert forall|a: int, b: int| 0 <= a < b < out.len() implies out[a].name
                != out[b].name by {
                if b < hs.len() {
                    assert(hs[a].name != hs[b].name);
                } else {
                    assert(out[b].name == name);
                    assert(hs[a].name != name);
                }
            }
        },
    }
}

/// Setting the same response header name twice never leaves two entries with
/// that name: one entry remains, it carries the value of the second set, it
/// sits at the position the first insertion chose, and every other entry is
/// untouched.
pub proof fn lemma_set_header_twice(
    hs: Seq<HeaderV>,
    name: Seq<u8>,
    v1: Seq<Seq<u8>>,
    v2: Seq<Seq<u8>>,
)
    requires
        unique_names(hs),
    ensures
        ({
            let once = spec_set_header(hs, name, v1);
            let twice = spec_set_header(once, name, v2);
            &&& unique_names(twice)
            &&& twice.len() == once.len()
            &&& spec_first_index(twice, name) == spec_first_index(once, name)
            &&& match spec_first_index(once, name) {
                Some(i) => 0 <= i < twice.len() && twice[i] == (HeaderV {
                    name,
                    value: Some(v2),
                }) && (forall|j: int|
                    0 <= j < twice.len() && j != i ==> twice[j] == once[j] && twice[j].name
                        != name),
                None => false,
            }
        }),
{
    let h1 = HeaderV { name, value: Some(v1) };
    let h2 = HeaderV { name, value: Some(v2) };
    let once = spec_set_header(hs, name, v1);
    let twice = spec_set_header(once, name, v2);
    lemma_first_index(hs, name);
    lemma_set_header_unique(hs, name, v1);
    lemma_set_header_unique(once, name, v2);
    match spec_first_index(hs, name) {
        Some(i) => {
            assert(once == hs.update(i, h1));
            assert(once[i].name == name);
            lemma_first_index_exact(once, name, i);
            assert(twice == once.update(i, h2));
            assert(twice[i].name == name);
            lemma_first_index_exact(twice, name, i);
        },
        None => {
            let i = hs.len() as int;
            assert(once == hs.push(h1));
            assert(once[i] == h1);
            lemma_first_index_exact(once, name, i);
            assert(twice == once.update(i, h2));
            assert(twice[i].name == name);
            lemma_first_index_exact(twice, name, i);
        },
    }
    let i = spec_first_index(once, name)->0;
    assert forall|j: int| 0 <= j < twice.len() && j != i implies twice[j] == once[j] && twice[j].name
        != name by {
        assert(twice[i].name == name);
        if j < i {
            assert(twice[j].name != twice[i].name);
        } else {
            assert(twice[i].name != twice[j].name);
        }
    }
}

impl Response {
    /// Overwrite the value of the header named `name` in place, or append
    /// the header if no header of that name exists yet. The value becomes
    /// the single token `content`.
    pub fn set_header(&mut self, name: Vec<u8>, content: Vec<u8>)
        ensures
            final(self)@.headers == spec_set_header(old(self)@.headers, name@, seq![content@]),
            final(self).status_line == old(self).status_line,
            final(self)@.body == old(self)@.body,
    {
        let ghost hs = self@.headers;
        let ghost nv = name@;
        let ghost cv = content@;
        let mut toks: Vec<FieldContent> = Vec::new();
        toks.push(FieldContent(content));
        let h = MessageHeader { field_name: FieldName(name), field_value: Some(FieldValue(toks)) };
        proof {
            assert(h@.name == nv);
            assert(h@.value matches Some(t) && t =~= seq![cv]);
        }
        let mut i: usize = 0;
        while i < self.headers.len()
            invariant
                i <= self.headers@.len(),
                hs == self@.headers,
                hs == old(self)@.headers,
                self.status_line == old(self).status_line,
                self@.body == old(self)@.body,
                hs.len() == self.headers@.len(),
                h@.name == nv,
                nv == name@,
                h@.value matches Some(t) && t == seq![cv],
                cv == content@,
                forall|j: int| 0 <= j < i ==> hs[j].name != h@.name,
            decreases self.headers@.len() - i,
        {
            let same = crate::lex::bytes_eq(
                self.headers[i].field_name.0.as_slice(),
                h.field_name.0.as_slice(),
            );
            if same {
                proof {
                    lemma_first_index_exact(hs, h@.name, i as int);
                }
                let ghost hv = h@;
                self.headers.set(i, h);
                proof {
                    assert(self@.headers =~= hs.update(i as int, hv));
                }
                return ;
            }
            i = i + 1;
        }
        proof {
            lemma_first_index(hs, h@.name);
        }
        let ghost hv = h@;
        self.headers.push(h);
        proof {
            assert(self@.headers =~= hs.push(hv));
        }
    }

    /// The response's exact wire bytes.
    pub fn into_bytes(self) -> (r: Vec<u8>)
        ensures
            r@ == response_bytes(self@),
    {
        let ghost v = self@;
        let mut out = self.status_line.into_bytes();
        let mut i: usize = 0;
        proof {
            assert(v.headers.take(0) =~= Seq::<HeaderV>::empty());
        }
        let mut headers = self.headers;
        while i < headers.len()
            invariant
                i <= headers@.len(),
                v.headers == headers@.map_values(|h: MessageHeader| h@),
                v.headers.len() == headers@.len(),
                out@ == status_line_bytes(v.status_line) + headers_block_bytes(
                    v.headers.take(i as int),
                ),
            decreases headers@.len() - i,
        {
            let h = &headers[i];
            let mut hb = h.to_bytes();
            out.append(&mut hb);
            out.push(CR);
            out.push(LF);
            proof {
                assert(v.headers.take(i + 1) =~= v.headers.take(i as int).push(
                    v.headers[i as int],
                ));
                lemma_headers_block_push(v.headers.take(i as int), v.headers[i as int]);
                assert(out@ =~= status_line_bytes(v.status_line) + headers_block_bytes(
                    v.headers.take(i + 1),
                ));
            }
            i = i + 1;
        }
        proof {
            assert(v.headers.take(v.headers.len() as int) =~= v.headers);
        }
        out.push(CR);
        out.push(LF);
        match self.body {
            Some(b) => {
                let mut bb = b.into_bytes();
                out.append(&mut bb);
            },
            None => {},
        }
        proof {
            assert(out@ =~= response_bytes(v));
        }
        out
    }
}

} // verus!
