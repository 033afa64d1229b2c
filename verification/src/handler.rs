//! The per-request pipeline after parsing: route the request, apply the
//! handler's outcome, negotiate content encoding, compute `Content-Length`,
//! and serialize. File reads and writes cannot happen here; for those the
//! pipeline hands an action out and resumes when the caller reports what the
//! filesystem said.

use vstd::prelude::*;

verus! {

use crate::lex::{dec_rep, spec_split, trim_ws, trim_ws_exec, COMMA};
use crate::message::{HeaderV, HttpVersion, MessageBody};
use crate::request::{spec_find_value, spec_first_value_content, Method, MethodV, Request, RequestV};
use crate::response::{
    response_bytes, spec_set_header, Response, ResponseV, Status, StatusLine,
};
use crate::routes::{Route, RouteV};
use crate::ServerResponse;

/// What a route handler answers: a status override, extra headers, and
/// extra body bytes.
pub ghost struct OutcomeV {
    pub status: Option<Status>,
    pub headers: Seq<(Seq<u8>, Seq<u8>)>,
    pub body: Seq<u8>,
}

/// What processing a request decides: a finished response, or a filesystem
/// action that must happen first.
pub ghost enum PlanV {
    Ready(OutcomeV),
    Read(Seq<u8>),
    Write(Seq<u8>, Seq<u8>),
}

/// What the filesystem said about the requested action.
#[derive(Debug, PartialEq, Eq)]
pub enum FileOutcome {
    /// The file was read; these are its bytes.
    Data(Vec<u8>),
    /// The file does not exist.
    Missing,
    /// The name was not a usable path.
    InvalidName,
    /// The file was created and the body written.
    Created,
}

pub ghost enum FileOutcomeV {
    Data(Seq<u8>),
    Missing,
    InvalidName,
    Created,
}

impl View for FileOutcome {
    type V = FileOutcomeV;

    open spec fn view(&self) -> FileOutcomeV {
        match self {
            FileOutcome::Data(d) => FileOutcomeV::Data(d@),
            FileOutcome::Missing => FileOutcomeV::Missing,
            FileOutcome::InvalidName => FileOutcomeV::InvalidName,
            FileOutcome::Created => FileOutcomeV::Created,
        }
    }
}

pub open spec fn content_type_name() -> Seq<u8> {
    seq![67u8, 111u8, 110u8, 116u8, 101u8, 110u8, 116u8, 45u8, 84u8, 121u8, 112u8, 101u8]
}

pub open spec fn content_length_name() -> Seq<u8> {
    seq![
        67u8,
        111u8,
        110u8,
        116u8,
        101u8,
        110u8,
        116u8,
        45u8,
        76u8,
        101u8,
        110u8,
        103u8,
        116u8,
        104u8,
    ]
}

pub open spec fn content_encoding_name() -> Seq<u8> {
    seq![
        67u8,
        111u8,
        110u8,
        116u8,
        101u8,
        110u8,
        116u8,
        45u8,
        69u8,
        110u8,
        99u8,
        111u8,
        100u8,
        105u8,
        110u8,
        103u8,
    ]
}

pub open spec fn accept_encoding_name() -> Seq<u8> {
    seq![
        65u8,
        99u8,
        99u8,
        101u8,
        112u8,
        116u8,
        45u8,
        69u8,
        110u8,
        99u8,
        111u8,
        100u8,
        105u8,
        110u8,
        103u8,
    ]
}

pub open spec fn user_agent_name() -> Seq<u8> {
    seq![85u8, 115u8, 101u8, 114u8, 45u8, 65u8, 103u8, 101u8, 110u8, 116u8]
}

pub open spec fn text_plain() -> Seq<u8> {
    seq![116u8, 101u8, 120u8, 116u8, 47u8, 112u8, 108u8, 97u8, 105u8, 110u8]
}

pub open spec fn octet_stream() -> Seq<u8> {
    seq![
        97u8,
        112u8,
        112u8,
        108u8,
        105u8,
        99u8,
        97u8,
        116u8,
        105u8,
        111u8,
        110u8,
        47u8,
        111u8,
        99u8,
        116u8,
        101u8,
        116u8,
        45u8,
        115u8,
        116u8,
        114u8,
        101u8,
        97u8,
        109u8,
    ]
}

pub open spec fn gzip_token() -> Seq<u8> {
    seq![103u8, 122u8, 105u8, 112u8]
}

/// An outcome that neither overrides the status nor adds anything, so the
/// default `NotFound` stands.
pub open spec fn empty_outcome() -> OutcomeV {
    OutcomeV { status: None, headers: seq![], body: seq![] }
}

/// What each route's handler returns, or which filesystem action it needs.
pub open spec fn spec_plan(req: RequestV) -> PlanV {
    match crate::routes::spec_route(req.line.uri) {
        RouteV::Root => PlanV::Ready(
            if req.line.method is Get {
                OutcomeV { status: Some(Status::OK), headers: seq![], body: seq![] }
            } else {
                empty_outcome()
            },
        ),
        RouteV::Echo(command) => PlanV::Ready(
            if req.line.method is Get {
                OutcomeV {
                    status: Some(Status::OK),
                    headers: seq![(content_type_name(), text_plain())],
                    body: command,
                }
            } else {
                empty_outcome()
            },
        ),
        RouteV::UserAgent => PlanV::Ready(
            if req.line.method is Get {
                match spec_first_value_content(req.headers, user_agent_name()) {
                    Some(tok) => OutcomeV {
                        status: Some(Status::OK),
                        headers: seq![(content_type_name(), text_plain())],
                        body: tok,
                    },
                    None => empty_outcome(),
                }
            } else {
                empty_outcome()
            },
        ),
        RouteV::Files(filename) => if req.line.method is Get {
            PlanV::Read(filename)
        } else if req.line.method is Post {
            PlanV::Write(
                filename,
                match req.body {
                    Some(b) => b,
                    None => Seq::empty(),
                },
            )
        } else {
            PlanV::Ready(empty_outcome())
        },
        RouteV::Unknown => PlanV::Ready(
            OutcomeV { status: Some(Status::NotFound), headers: seq![], body: seq![] },
        ),
    }
}

/// The outcome a filesystem answer yields, per method.
pub open spec fn spec_file_result(method: MethodV, out: FileOutcomeV) -> OutcomeV {
    match method {
        MethodV::Get => match out {
            FileOutcomeV::Data(d) => OutcomeV {
                status: Some(Status::OK),
                headers: seq![(content_type_name(), octet_stream())],
                body: d,
            },
            _ => OutcomeV { status: Some(Status::NotFound), headers: seq![], body: seq![] },
        },
        MethodV::Post => match out {
            FileOutcomeV::Created => OutcomeV {
                status: Some(Status::Created),
                headers: seq![],
                body: seq![],
            },
            _ => OutcomeV { status: Some(Status::NotFound), headers: seq![], body: seq![] },
        },
        MethodV::Extension(_) => empty_outcome(),
    }
}

/// Whether the request negotiated gzip: the `Accept-Encoding` value, split
/// on commas, holds a token that trims to exactly `gzip` (case-sensitive).
pub open spec fn negotiates_gzip(hs: Seq<HeaderV>) -> bool {
    match spec_find_value(hs, accept_encoding_name()) {
        None => false,
        Some(v) => exists|k: int|
            0 <= k < spec_split(v, COMMA).len() && trim_ws(spec_split(v, COMMA)[k])
                == gzip_token(),
    }
}

/// Left fold of set-or-replace over a list of name/value pairs.
pub open spec fn fold_set(hs: Seq<HeaderV>, extra: Seq<(Seq<u8>, Seq<u8>)>) -> Seq<HeaderV>
    decreases extra.len(),
{
    if extra.len() == 0 {
        hs
    } else {
        fold_set(spec_set_header(hs, extra[0].0, seq![extra[0].1]), extra.skip(1))
    }
}

/// The assembled response: the default `NotFound` answer at the request's
/// version, the handler's status override and extra headers applied, the
/// body set when the handler produced bytes, replaced by `enc` when gzip was
/// negotiated (with `Content-Encoding: gzip` set), and `Content-Length` set
/// to the final body's exact size iff a body is present.
pub open spec fn spec_assemble(
    version: HttpVersion,
    out: OutcomeV,
    gzip: bool,
    enc: Seq<u8>,
) -> ResponseV {
    let status = match out.status {
        Some(s) => s,
        None => Status::NotFound,
    };
    let hs0 = fold_set(seq![], out.headers);
    let body0: Option<Seq<u8>> = if out.body.len() > 0 {
        Some(out.body)
    } else {
        None
    };
    let hs1 = if gzip && body0 is Some {
        spec_set_header(hs0, content_encoding_name(), seq![gzip_token()])
    } else {
        hs0
    };
    let body1: Option<Seq<u8>> = if gzip && body0 is Some {
        Some(enc)
    } else {
        body0
    };
    let hs2 = match body1 {
        Some(b) => spec_set_header(hs1, content_length_name(), seq![dec_rep(b.len())]),
        None => hs1,
    };
    ResponseV {
        status_line: StatusLine { http_version: version, status },
        headers: hs2,
        body: body1,
    }
}

proof fn lemma_fold_set_unique(hs: Seq<HeaderV>, extra: Seq<(Seq<u8>, Seq<u8>)>)
    requires
        crate::response::unique_names(hs),
    ensures
        crate::response::unique_names(fold_set(hs, extra)),
    decreases extra.len(),
{
    if extra.len() > 0 {
        crate::response::lemma_set_header_unique(hs, extra[0].0, seq![extra[0].1]);
        lemma_fold_set_unique(spec_set_header(hs, extra[0].0, seq![extra[0].1]), extra.skip(1));
    }
}

/// Response headers never repeat a name: whatever the handler's outcome,
/// the encoding negotiation and the codec's output, the assembled
/// response's header list holds each name at most once.
pub proof fn lemma_assembled_headers_unique(
    version: HttpVersion,
    out: OutcomeV,
    gzip: bool,
    enc: Seq<u8>,
)
    ensures
        crate::response::unique_names(spec_assemble(version, out, gzip, enc).headers),
{
    assert(crate::response::unique_names(Seq::<HeaderV>::empty()));
    lemma_fold_set_unique(Seq::<HeaderV>::empty(), out.headers);
    let hs0 = fold_set(seq![], out.headers);
    assert(hs0 == fold_set(Seq::<HeaderV>::empty(), out.headers)) by {
        assert(seq![] =~= Seq::<HeaderV>::empty());
    }
    crate::response::lemma_set_header_unique(hs0, content_encoding_name(), seq![gzip_token()]);
    let hs1 = if gzip && out.body.len() > 0 {
        spec_set_header(hs0, content_encoding_name(), seq![gzip_token()])
    } else {
        hs0
    };
    crate::response::lemma_set_header_unique(
        hs1,
        content_length_name(),
        seq![dec_rep(enc.len())],
    );
    crate::response::lemma_set_header_unique(
        hs1,
        content_length_name(),
        seq![dec_rep(out.body.len())],
    );
}

/// A response with a body always carries a `Content-Length` header whose
/// value is the decimal size of the final body, after any encoding.
pub proof fn lemma_content_length_matches_body(
    version: HttpVersion,
    out: OutcomeV,
    gzip: bool,
    enc: Seq<u8>,
)
    ensures
        ({
            let r = spec_assemble(version, out, gzip, enc);
            r.body matches Some(b) ==> exists|idx: int|
                0 <= idx < r.headers.len() && r.headers[idx] == (HeaderV {
                    name: content_length_name(),
                    value: Some(seq![dec_rep(b.len())]),
                })
        }),
{
    let r = spec_assemble(version, out, gzip, enc);
    let hs0 = fold_set(seq![], out.headers);
    let hs1 = if gzip && out.body.len() > 0 {
        spec_set_header(hs0, content_encoding_name(), seq![gzip_token()])
    } else {
        hs0
    };
    match r.body {
        Some(b) => {
            let h = HeaderV { name: content_length_name(), value: Some(seq![dec_rep(b.len())]) };
            crate::response::lemma_first_index(hs1, content_length_name());
            match crate::response::spec_first_index(hs1, content_length_name()) {
                Some(i) => {
                    assert(r.headers == hs1.update(i, h));
                    assert(r.headers[i] == h);
                },
                None => {
                    assert(r.headers == hs1.push(h));
                    assert(r.headers[hs1.len() as int] == h);
                },
            }
        },
        None => {},
    }
}

fn content_type_vec() -> (v: Vec<u8>)
    ensures
        v@ == content_type_name(),
{
    let mut v: Vec<u8> = Vec::new();
    v.push(67);
    v.push(111);
    v.push(110);
    v.push(116);
    v.push(101);
    v.push(110);
    v.push(116);
    v.push(45);
    v.push(84);
    v.push(121);
    v.push(112);
    v.push(101);
    proof {
        assert(v@ =~= content_type_name());
    }
    v
}

pub(crate) fn content_length_vec() -> (v: Vec<u8>)
    ensures
        v@ == content_length_name(),
{
    let mut v: Vec<u8> = Vec::new();
    v.push(67);
    v.push(111);
    v.push(110);
    v.push(116);
    v.push(101);
    v.push(110);
    v.push(116);
    v.push(45);
    v.push(76);
    v.push(101);
    v.push(110);
    v.push(103);
    v.push(116);
    v.push(104);
    proof {
        assert(v@ =~= content_length_name());
    }
    v
}

fn content_encoding_vec() -> (v: Vec<u8>)
    ensures
        v@ == content_encoding_name(),
{
    let mut v: Vec<u8> = Vec::new();
    v.push(67);
    v.push(111);
    v.push(110);
    v.push(116);
    v.push(101);
    v.push(110);
    v.push(116);
    v.push(45);
    v.push(69);
    v.push(110);
    v.push(99);
    v.push(111);
    v.push(100);
    v.push(105);
    v.push(110);
    v.push(103);
    proof {
        assert(v@ =~= content_encoding_name());
    }
    v
}

fn accept_encoding_vec() -> (v: Vec<u8>)
    ensures
        v@ == accept_encoding_name(),
{
    let mut v: Vec<u8> = Vec::new();
    v.push(65);
    v.push(99);
    v.push(99);
    v.push(101);
    v.push(112);
    v.push(116);
    v.push(45);
    v.push(69);
    v.push(110);
    v.push(99);
    v.push(111);
    v.push(100);
    v.push(105);
    v.push(110);
    v.push(103);
    proof {
        assert(v@ =~= accept_encoding_name());
    }
    v
}

fn user_agent_vec() -> (v: Vec<u8>)
    ensures
        v@ == user_agent_name(),
{
    let mut v: Vec<u8> = Vec::new();
    v.push(85);
    v.push(115);
    v.push(101);
    v.push(114);
    v.push(45);
    v.push(65);
    v.push(103);
    v.push(101);
    v.push(110);
    v.push(116);
    proof {
        assert(v@ =~= user_agent_name());
    }
    v
}

fn text_plain_vec() -> (v: Vec<u8>)
    ensures
        v@ == text_plain(),
{
    let mut v: Vec<u8> = Vec::new();
    v.push(116);
    v.push(101);
    v.push(120);
    v.push(116);
    v.push(47);
    v.push(112);
    v.push(108);
    v.push(97);
    v.push(105);
    v.push(110);
    proof {
        assert(v@ =~= text_plain());
    }
    v
}

fn octet_stream_vec() -> (v: Vec<u8>)
    ensures
        v@ == octet_stream(),
{
    let mut v: Vec<u8> = Vec::new();
    v.push(97);
    v.push(112);
    v.push(112);
    v.push(108);
    v.push(105);
    v.push(99);
    v.push(97);
    v.push(116);
    v.push(105);
    v.push(111);
    v.push(110);
    v.push(47);
    v.push(111);
    v.push(99);
    v.push(116);
    v.push(101);
    v.push(116);
    v.push(45);
    v.push(115);
    v.push(116);
    v.push(114);
    v.push(101);
    v.push(97);
    v.push(109);
    proof {
        assert(v@ =~= octet_stream());
    }
    v
}

fn gzip_token_vec() -> (v: Vec<u8>)
    ensures
        v@ == gzip_token(),
{
    let mut v: Vec<u8> = Vec::new();
    v.push(103);
    v.push(122);
    v.push(105);
    v.push(112);
    proof {
        assert(v@ =~= gzip_token());
    }
    v
}

/// No extra headers.
fn no_extra() -> (v: Vec<(Vec<u8>, Vec<u8>)>)
    ensures
        v@.map_values(|p: (Vec<u8>, Vec<u8>)| (p.0@, p.1@)) == Seq::<(Seq<u8>, Seq<u8>)>::empty(),
{
    let v: Vec<(Vec<u8>, Vec<u8>)> = Vec::new();
    proof {
        assert(v@.map_values(|p: (Vec<u8>, Vec<u8>)| (p.0@, p.1@)) =~= Seq::<
            (Seq<u8>, Seq<u8>),
        >::empty());
    }
    v
}

/// The single `Content-Type: text/plain` extra header.
fn text_plain_extra() -> (v: Vec<(Vec<u8>, Vec<u8>)>)
    ensures
        v@.map_values(|p: (Vec<u8>, Vec<u8>)| (p.0@, p.1@)) == seq![
            (content_type_name(), text_plain()),
        ],
{
    let mut v: Vec<(Vec<u8>, Vec<u8>)> = Vec::new();
    v.push((content_type_vec(), text_plain_vec()));
    proof {
        assert(v@.map_values(|p: (Vec<u8>, Vec<u8>)| (p.0@, p.1@)) =~= seq![
            (content_type_name(), text_plain()),
        ]);
    }
    v
}

/// The single `Content-Type: application/octet-stream` extra header.
fn octet_stream_extra() -> (v: Vec<(Vec<u8>, Vec<u8>)>)
    ensures
        v@.map_values(|p: (Vec<u8>, Vec<u8>)| (p.0@, p.1@)) == seq![
            (content_type_name(), octet_stream()),
        ],
{
    let mut v: Vec<(Vec<u8>, Vec<u8>)> = Vec::new();
    v.push((content_type_vec(), octet_stream_vec()));
    proof {
        assert(v@.map_values(|p: (Vec<u8>, Vec<u8>)| (p.0@, p.1@)) =~= seq![
            (content_type_name(), octet_stream()),
        ]);
    }
    v
}

/// Whether this request negotiated gzip through its `Accept-Encoding`
/// header.
pub fn request_negotiates_gzip(request: &Request) -> (b: bool)
    ensures
        b == negotiates_gzip(request@.headers),
{
    let ae = accept_encoding_vec();
    match request.find_value(ae.as_slice()) {
        None => false,
        Some(value) => {
            let ghost vv = value@;
            let parts = crate::lex::split_byte(&value, COMMA);
            let ghost ps = parts@.map_values(|p: Vec<u8>| p@);
            let gz = gzip_token_vec();
            let mut k: usize = 0;
            while k < parts.len()
                invariant
                    k <= parts@.len(),
                    ps == parts@.map_values(|p: Vec<u8>| p@),
                    ps == spec_split(vv, COMMA),
                    ps.len() == parts@.len(),
                    gz@ == gzip_token(),
                    spec_find_value(request@.headers, accept_encoding_name()) == Some(vv),
                    forall|j: int| 0 <= j < k ==> trim_ws(ps[j]) != gzip_token(),
                decreases parts@.len() - k,
            {
                let tok = trim_ws_exec(&parts[k]);
                if crate::lex::bytes_eq(tok.as_slice(), gz.as_slice()) {
                    proof {
                        assert(trim_ws(ps[k as int]) == gzip_token());
                        assert(spec_find_value(request@.headers, accept_encoding_name())
                            == Some(vv));
                        let w = spec_find_value(request@.headers, accept_encoding_name())->0;
                        assert(w == vv);
                        assert(0 <= k < spec_split(w, COMMA).len());
                        assert(trim_ws(spec_split(w, COMMA)[k as int]) == gzip_token());
                        assert(negotiates_gzip(request@.headers));
                    }
                    return true;
                }
                k = k + 1;
            }
            proof {
                assert(!(exists|j: int|
                    0 <= j < ps.len() && trim_ws(ps[j]) == gzip_token()));
            }
            false
        },
    }
}

/// Build the response for a handler outcome, with the encoded body already
/// chosen: `encoded` carries the compressed body exactly when gzip was
/// negotiated and the outcome produced body bytes. Verified for every value
/// the codec may hand back.
pub fn assemble_response(
    version: HttpVersion,
    status: Option<Status>,
    extra: Vec<(Vec<u8>, Vec<u8>)>,
    body: Vec<u8>,
    gzip: bool,
    encoded: Option<Vec<u8>>,
) -> (resp: Response)
    requires
        (encoded is Some) <==> (gzip && body@.len() > 0),
    ensures
        resp@ == spec_assemble(
            version,
            OutcomeV {
                status,
                headers: extra@.map_values(|p: (Vec<u8>, Vec<u8>)| (p.0@, p.1@)),
                body: body@,
            },
            gzip,
            match encoded {
                Some(e) => e@,
                None => Seq::empty(),
            },
        ),
{
    let ghost out = OutcomeV {
        status,
        headers: extra@.map_values(|p: (Vec<u8>, Vec<u8>)| (p.0@, p.1@)),
        body: body@,
    };
    let st = match status {
        Some(s) => s,
        None => Status::NotFound,
    };
    let mut resp = Response {
        status_line: StatusLine { http_version: version, status: st },
        headers: Vec::new(),
        body: None,
    };
    proof {
        assert(resp@.headers =~= Seq::<HeaderV>::empty());
    }
    let mut i: usize = 0;
    let ghost hs_target = fold_set(seq![], out.headers);
    proof {
        assert(out.headers.skip(0) =~= out.headers);
    }
    while i < extra.len()
        invariant
            i <= extra@.len(),
            out.headers == extra@.map_values(|p: (Vec<u8>, Vec<u8>)| (p.0@, p.1@)),
            out.headers.len() == extra@.len(),
            hs_target == fold_set(seq![], out.headers),
            fold_set(resp@.headers, out.headers.skip(i as int)) == hs_target,
            resp.status_line == (StatusLine { http_version: version, status: st }),
            resp@.body is None,
        decreases extra@.len() - i,
    {
        let name = crate::lex::clone_bytes(&extra[i].0);
        let val = crate::lex::clone_bytes(&extra[i].1);
        proof {
            assert(out.headers.skip(i as int)[0] == out.headers[i as int]);
            assert(out.headers[i as int] == (name@, val@));
            assert(out.headers.skip(i as int).skip(1) =~= out.headers.skip(i + 1));
        }
        resp.set_header(name, val);
        proof {
            assert(fold_set(resp@.headers, out.headers.skip(i + 1)) == hs_target);
        }
        i = i + 1;
    }
    proof {
        assert(out.headers.skip(out.headers.len() as int) =~= Seq::<
            (Seq<u8>, Seq<u8>),
        >::empty());
        assert(fold_set(resp@.headers, Seq::<(Seq<u8>, Seq<u8>)>::empty()) == resp@.headers);
        assert(resp@.headers == hs_target);
    }
    let has_body = body.len() > 0;
    if has_body {
        match encoded {
            Some(enc) => {
                resp.set_header(content_encoding_vec(), gzip_token_vec());
                let n = enc.len();
                resp.body = Some(MessageBody(enc));
                let len_bytes = crate::lex::u64_to_dec(n as u64);
                resp.set_header(content_length_vec(), len_bytes);
            },
            None => {
                let n = body.len();
                resp.body = Some(MessageBody(body));
                let len_bytes = crate::lex::u64_to_dec(n as u64);
                resp.set_header(content_length_vec(), len_bytes);
            },
        }
    }
    resp
}

/// The state carried from routing to response assembly: the parsed request
/// and the configured base directory, if any.
pub struct Handler {
    pub request: Request,
    pub directory: Option<String>,
}

/// What processing produced: a finished answer, or the filesystem action
/// that must be performed before `Handler::finish_file` can produce one.
pub enum HandleStep {
    Done(ServerResponse),
    FileRead { handler: Handler, filename: Vec<u8> },
    FileWrite { handler: Handler, filename: Vec<u8>, content: Vec<u8> },
}

/// The serialized wire bytes that a request with outcome `out` must get:
/// some compressed body `enc` exists such that the bytes render the
/// assembled response; when gzip plays no part the bytes are pinned down
/// exactly (with `enc` unused).
pub open spec fn response_matches(
    req: RequestV,
    out: OutcomeV,
    bytes: Seq<u8>,
) -> bool {
    let gz = negotiates_gzip(req.headers);
    &&& exists|enc: Seq<u8>|
        bytes == response_bytes(spec_assemble(req.line.version, out, gz, enc))
    &&& !(gz && out.body.len() > 0) ==> bytes == response_bytes(
        spec_assemble(req.line.version, out, gz, Seq::empty()),
    )
}

impl Handler {
    /// Pair a parsed request with the configured base directory.
    pub fn new(request: Request, directory: Option<String>) -> (h: Handler)
        ensures
            h.request == request,
            h.directory == directory,
    {
        Handler { request, directory }
    }

    /// Route the request and assemble the response, or hand out the
    /// filesystem action the `files` route needs; the handler comes back
    /// unchanged with the action.
    pub fn process(self) -> (r: HandleStep)
        ensures
            match spec_plan(self.request@) {
                PlanV::Ready(out) => r matches HandleStep::Done(sr) && sr matches
                    ServerResponse::Continue(bytes) && response_matches(
                    self.request@,
                    out,
                    bytes@,
                ),
                PlanV::Read(f) => r matches HandleStep::FileRead { handler, filename } && handler
                    == self && filename@ == f,
                PlanV::Write(f, c) => r matches HandleStep::FileWrite {
                    handler,
                    filename,
                    content,
                } && handler == self && filename@ == f && content@ == c,
            },
    {
        let route = Route::from_uri(&self.request.request_line.request_uri);
        match route {
            Route::Root => {
                let status = match &self.request.request_line.method {
                    Method::Get => Some(Status::OK),
                    _ => None,
                };
                let r = self.respond(status, no_extra(), Vec::new());
                HandleStep::Done(r)
            },
            Route::Echo { command } => {
                match &self.request.request_line.method {
                    Method::Get => {
                        let r = self.respond(Some(Status::OK), text_plain_extra(), command);
                        HandleStep::Done(r)
                    },
                    _ => {
                        let r = self.respond(None, no_extra(), Vec::new());
                        HandleStep::Done(r)
                    },
                }
            },
            Route::UserAgent => {
                match &self.request.request_line.method {
                    Method::Get => {
                        let ua = user_agent_vec();
                        match self.request.first_value_content(ua.as_slice()) {
                            Some(tok) => {
                                let r = self.respond(Some(Status::OK), text_plain_extra(), tok);
                                HandleStep::Done(r)
                            },
                            None => {
                                let r = self.respond(None, no_extra(), Vec::new());
                                HandleStep::Done(r)
                            },
                        }
                    },
                    _ => {
                        let r = self.respond(None, no_extra(), Vec::new());
                        HandleStep::Done(r)
                    },
                }
            },
            Route::Files { filename } => {
                match &self.request.request_line.method {
                    Method::Get => HandleStep::FileRead { handler: self, filename },
                    Method::Post => {
                        let content = match &self.request.body {
                            Some(b) => crate::lex::clone_bytes(&b.0),
                            None => Vec::new(),
                        };
                        HandleStep::FileWrite { handler: self, filename, content }
                    },
                    _ => {
                        let r = self.respond(None, no_extra(), Vec::new());
                        HandleStep::Done(r)
                    },
                }
            },
            Route::Unknown => {
                let r = self.respond(Some(Status::NotFound), no_extra(), Vec::new());
                HandleStep::Done(r)
            },
        }
    }

    /// Resume after the filesystem acted: turn its answer into the final
    /// response for this request.
    pub fn finish_file(self, outcome: FileOutcome) -> (r: ServerResponse)
        ensures
            r matches ServerResponse::Continue(bytes) && response_matches(
                self.request@,
                spec_file_result(self.request@.line.method, outcome@),
                bytes@,
            ),
    {
        match outcome {
            FileOutcome::Data(d) => {
                match &self.request.request_line.method {
                    Method::Get => {
                        self.respond(Some(Status::OK), octet_stream_extra(), d)
                    },
                    Method::Post => self.respond(Some(Status::NotFound), no_extra(), Vec::new()),
                    _ => self.respond(None, no_extra(), Vec::new()),
                }
            },
            FileOutcome::Created => {
                match &self.request.request_line.method {
                    Method::Get => self.respond(Some(Status::NotFound), no_extra(), Vec::new()),
                    Method::Post => self.respond(Some(Status::Created), no_extra(), Vec::new()),
                    _ => self.respond(None, no_extra(), Vec::new()),
                }
            },
            _ => {
                match &self.request.request_line.method {
                    Method::Get => self.respond(Some(Status::NotFound), no_extra(), Vec::new()),
                    Method::Post => self.respond(Some(Status::NotFound), no_extra(), Vec::new()),
                    _ => self.respond(None, no_extra(), Vec::new()),
                }
            },
        }
    }

    /// Assemble and serialize the response for an outcome, compressing the
    /// body through the gzip codec when the request negotiated it.
    fn respond(self, status: Option<Status>, extra: Vec<(Vec<u8>, Vec<u8>)>, body: Vec<u8>) -> (r:
        ServerResponse)
        ensures
            r matches ServerResponse::Continue(bytes) && response_matches(
                self.request@,
                OutcomeV {
                    status,
                    headers: extra@.map_values(|p: (Vec<u8>, Vec<u8>)| (p.0@, p.1@)),
                    body: body@,
                },
                bytes@,
            ),
    {
        let ghost out = OutcomeV {
            status,
            headers: extra@.map_values(|p: (Vec<u8>, Vec<u8>)| (p.0@, p.1@)),
            body: body@,
        };
        let gz = request_negotiates_gzip(&self.request);
        let version = self.request.request_line.http_version;
        let encoded: Option<Vec<u8>> = if gz && body.len() > 0 {
            Some(crate::gzip::gzip_compress(&body))
        } else {
            None
        };
        let ghost encv = match &encoded {
            Some(e) => e@,
            None => Seq::<u8>::empty(),
        };
        let resp = assemble_response(version, status, extra, body, gz, encoded);
        let bytes = resp.into_bytes();
        proof {
            assert(bytes@ == response_bytes(
                spec_assemble(self.request@.line.version, out, negotiates_gzip(
                    self.request@.headers,
                ), encv),
            ));
        }
        ServerResponse::Continue(bytes)
    }
}

} // verus!
