//! Executable parsers for the message grammar. Each one mirrors a spec
//! function of `parse` exactly: same inputs, same three-way outcome.

use vstd::prelude::*;

verus! {

use crate::lex::{
    class_spec, copy_range, lemma_run_len_bounds, lower, scan_byte, scan_class, trim_end_ws_exec,
    vec_u8_to_u32, ByteClass, COLON, CR, LF,
};
use crate::message::{FieldContent, FieldName, FieldValue, HttpVersion, MessageBody, MessageHeader};
use crate::parse::{
    ci_match, ci_prefix, digit_run, get_lit, http_slash_lit, lemma_header_bounds,
    lemma_headers_bounds, lemma_lws_bounds, lemma_method_bounds, lemma_name_bounds,
    lemma_request_line_bounds, lemma_uri_bounds, lemma_version_bounds, lit_match, lit_prefix,
    post_lit, spec_field_content, spec_field_name, spec_field_value, spec_header, spec_headers,
    spec_lws_opt, spec_method, spec_request, spec_request_line, spec_uri, spec_value_loop,
    spec_version, Step, StepV,
};
use crate::request::{Method, Request, RequestLine, RequestURI};

fn lower_byte(c: u8) -> (r: u8)
    ensures
        r == lower(c),
{
    if 65 <= c && c <= 90 {
        c + 32
    } else {
        c
    }
}

/// Compare the input at `pos` against a lower-case literal,
/// case-insensitively: whether the whole literal is there, and whether the
/// input ends while still matching it.
fn ci_check(data: &Vec<u8>, pos: usize, lit: &Vec<u8>) -> (r: (bool, bool))
    requires
        pos <= data@.len(),
    ensures
        r.0 == ci_match(data@, pos as int, lit@),
        r.1 == ci_prefix(data@, pos as int, lit@),
{
    let dlen = data.len();
    let mut k: usize = 0;
    while k < lit.len() && pos + k < dlen
        invariant
            0 <= k <= lit@.len(),
            dlen == data@.len(),
            pos + k <= data@.len(),
            forall|t: int| 0 <= t < k ==> lower(data@[pos + t]) == lit@[t],
        decreases lit@.len() - k,
    {
        if lower_byte(data[pos + k]) != lit[k] {
            return (false, false);
        }
        k = k + 1;
    }
    if k == lit.len() {
        (true, false)
    } else {
        (false, true)
    }
}

/// Compare the input at `pos` against a literal byte for byte: whether the
/// whole literal is there, and whether the input ends while still matching.
fn lit_check(data: &Vec<u8>, pos: usize, lit: &Vec<u8>) -> (r: (bool, bool))
    requires
        pos <= data@.len(),
    ensures
        r.0 == lit_match(data@, pos as int, lit@),
        r.1 == lit_prefix(data@, pos as int, lit@),
{
    let dlen = data.len();
    let mut k: usize = 0;
    while k < lit.len() && pos + k < dlen
        invariant
            0 <= k <= lit@.len(),
            dlen == data@.len(),
            pos + k <= data@.len(),
            forall|t: int| 0 <= t < k ==> data@[pos + t] == lit@[t],
        decreases lit@.len() - k,
    {
        if data[pos + k] != lit[k] {
            return (false, false);
        }
        k = k + 1;
    }
    if k == lit.len() {
        (true, false)
    } else {
        (false, true)
    }
}

fn get_vec() -> (v: Vec<u8>)
    ensures
        v@ == get_lit(),
{
    let mut v: Vec<u8> = Vec::new();
    v.push(103);
    v.push(101);
    v.push(116);
    proof {
        assert(v@ =~= get_lit());
    }
    v
}

fn post_vec() -> (v: Vec<u8>)
    ensures
        v@ == post_lit(),
{
    let mut v: Vec<u8> = Vec::new();
    v.push(112);
    v.push(111);
    v.push(115);
    v.push(116);
    proof {
        assert(v@ =~= post_lit());
    }
    v
}

fn http_slash_vec() -> (v: Vec<u8>)
    ensures
        v@ == http_slash_lit(),
{
    let mut v: Vec<u8> = Vec::new();
    v.push(72);
    v.push(84);
    v.push(84);
    v.push(80);
    v.push(47);
    proof {
        assert(v@ =~= http_slash_lit());
    }
    v
}

/// Parse a method token.
pub fn parse_method(data: &Vec<u8>, pos: usize, complete: bool) -> (r: Step<Method>)
    requires
        pos <= data@.len(),
    ensures
        r@ == spec_method(data@, pos as int, complete),
{
    let dlen = data.len();
    let gl = get_vec();
    let (gm, gp) = ci_check(data, pos, &gl);
    if gm {
        return Step::Done { value: Method::Get, next: pos + 3 };
    }
    if !complete && gp {
        return Step::More;
    }
    let pl = post_vec();
    let (pm, pp) = ci_check(data, pos, &pl);
    if pm {
        return Step::Done { value: Method::Post, next: pos + 4 };
    }
    if !complete && pp {
        return Step::More;
    }
    let n = scan_class(data, pos, ByteClass::Alpha);
    if !complete && pos + n == dlen {
        Step::More
    } else if n == 0 {
        Step::Fail
    } else {
        Step::Done { value: Method::Extension(copy_range(data, pos, pos + n)), next: pos + n }
    }
}

/// Parse a request-URI.
pub fn parse_request_uri(data: &Vec<u8>, pos: usize, complete: bool) -> (r: Step<RequestURI>)
    requires
        pos <= data@.len(),
    ensures
        r@ == spec_uri(data@, pos as int, complete),
{
    let dlen = data.len();
    let n = scan_class(data, pos, ByteClass::NonWsp);
    if !complete && pos + n == dlen {
        Step::More
    } else if n == 0 {
        Step::Fail
    } else {
        Step::Done { value: RequestURI(copy_range(data, pos, pos + n)), next: pos + n }
    }
}

/// Parse one whitespace-delimited value token.
pub fn parse_field_content(data: &Vec<u8>, pos: usize, complete: bool) -> (r: Step<FieldContent>)
    requires
        pos <= data@.len(),
    ensures
        r@ == spec_field_content(data@, pos as int, complete),
{
    let dlen = data.len();
    let n = scan_class(data, pos, ByteClass::NonWsp);
    if !complete && pos + n == dlen {
        Step::More
    } else if n == 0 {
        Step::Fail
    } else {
        Step::Done { value: FieldContent(copy_range(data, pos, pos + n)), next: pos + n }
    }
}

/// Parse an `HTTP/<major>.<minor>` version.
pub fn parse_http_version(data: &Vec<u8>, pos: usize, complete: bool) -> (r: Step<HttpVersion>)
    requires
        pos <= data@.len(),
    ensures
        r@ == spec_version(data@, pos as int, complete),
{
    let dlen = data.len();
    let hv = http_slash_vec();
    let (hm, hp) = lit_check(data, pos, &hv);
    if !hm {
        if !complete && hp {
            return Step::More;
        }
        return Step::Fail;
    }
    let j = pos + 5;
    let n1 = scan_class(data, j, ByteClass::Digit);
    if n1 == 0 {
        if !complete && j == dlen {
            return Step::More;
        }
        return Step::Fail;
    }
    if !complete && j + n1 == dlen {
        return Step::More;
    }
    let major = match read_digits(data, j, n1) {
        Ok(v) => v,
        Err(()) => {
            return Step::Fail;
        },
    };
    let k = j + n1;
    if k == dlen {
        if complete {
            return Step::Fail;
        }
        return Step::More;
    }
    if data[k] != 46 {
        return Step::Fail;
    }
    let m = k + 1;
    let n2 = scan_class(data, m, ByteClass::Digit);
    if n2 == 0 {
        if !complete && m == dlen {
            return Step::More;
        }
        return Step::Fail;
    }
    if !complete && m + n2 == dlen {
        return Step::More;
    }
    let minor = match read_digits(data, m, n2) {
        Ok(v) => v,
        Err(()) => {
            return Step::Fail;
        },
    };
    Step::Done { value: HttpVersion { major, minor }, next: m + n2 }
}

/// Read the value of a digit run, refusing values over 32 bits.
fn read_digits(data: &Vec<u8>, pos: usize, n: usize) -> (r: Result<u32, ()>)
    requires
        pos <= data@.len(),
        n == run_len_digits(data@, pos as int),
        n > 0,
        pos + n <= data@.len(),
    ensures
        ({
            let value = crate::lex::dec_val(data@.subrange(pos as int, pos + n));
            match r {
                Ok(v) => value <= u32::MAX && v == value,
                Err(_) => value > u32::MAX,
            }
        }),
{
    let dlen = data.len();
    let digits = copy_range(data, pos, pos + n);
    proof {
        lemma_run_len_bounds(data@, pos as int, class_spec(ByteClass::Digit));
        assert(forall|t: int|
            0 <= t < digits@.len() ==> (class_spec(ByteClass::Digit))(#[trigger] digits@[t]));
        assert(crate::lex::is_digit(digits@[0]));
        assert(digits@[0] != 43);
        assert(crate::lex::u32_digits_of(digits@) == digits@);
        assert(crate::lex::all_digits(digits@));
    }
    match vec_u8_to_u32(&digits) {
        Ok(v) => Ok(v),
        Err(_) => {
            proof {
                assert(crate::lex::spec_parse_u32(digits@) is None);
                assert(crate::lex::dec_val(digits@) > u32::MAX);
            }
            Err(())
        },
    }
}

/// The digit-run length, under the name the spec grammar uses.
pub open spec fn run_len_digits(s: Seq<u8>, i: int) -> nat {
    digit_run(s, i)
}

/// Parse a request-line.
pub fn parse_request_line(data: &Vec<u8>, pos: usize, complete: bool) -> (r: Step<RequestLine>)
    requires
        pos <= data@.len(),
    ensures
        r@ == spec_request_line(data@, pos as int, complete),
{
    let dlen = data.len();
    let w0 = scan_class(data, pos, ByteClass::Spht);
    if !complete && pos + w0 == dlen {
        return Step::More;
    }
    let method = match parse_method(data, pos + w0, complete) {
        Step::Done { value, next } => {
            proof {
                lemma_method_bounds(data@, pos + w0, complete);
            }
            (value, next)
        },
        Step::More => {
            return Step::More;
        },
        Step::Fail => {
            return Step::Fail;
        },
    };
    let (method, a) = method;
    let w1 = scan_class(data, a, ByteClass::Spht);
    if !complete && a + w1 == dlen {
        return Step::More;
    }
    if w1 == 0 {
        return Step::Fail;
    }
    let uri = match parse_request_uri(data, a + w1, complete) {
        Step::Done { value, next } => {
            proof {
                lemma_uri_bounds(data@, a + w1, complete);
            }
            (value, next)
        },
        Step::More => {
            return Step::More;
        },
        Step::Fail => {
            return Step::Fail;
        },
    };
    let (uri, b) = uri;
    let w2 = scan_class(data, b, ByteClass::Spht);
    if !complete && b + w2 == dlen {
        return Step::More;
    }
    if w2 == 0 {
        return Step::Fail;
    }
    let ver = match parse_http_version(data, b + w2, complete) {
        Step::Done { value, next } => {
            proof {
                lemma_version_bounds(data@, b + w2, complete);
            }
            (value, next)
        },
        Step::More => {
            return Step::More;
        },
        Step::Fail => {
            return Step::Fail;
        },
    };
    let (ver, c) = ver;
    let w3 = scan_class(data, c, ByteClass::Spht);
    if !complete && c + w3 == dlen {
        return Step::More;
    }
    let d = c + w3;
    if d < dlen && d + 1 < dlen && data[d] == CR && data[d + 1] == LF {
        Step::Done {
            value: RequestLine { method, request_uri: uri, http_version: ver },
            next: d + 2,
        }
    } else if !complete && d < dlen && d + 1 == dlen && data[d] == CR {
        Step::More
    } else {
        Step::Fail
    }
}

/// Skip the optional linear white space before a field name. `None` asks
/// for more bytes.
pub fn skip_lws(data: &Vec<u8>, pos: usize, complete: bool) -> (r: Option<usize>)
    requires
        pos <= data@.len(),
    ensures
        match spec_lws_opt(data@, pos as int, complete) {
            StepV::Done { v: j, next: _ } => r matches Some(jj) && jj == j && jj <= data@.len(),
            StepV::More => r is None,
            StepV::Fail => false,
        },
{
    let dlen = data.len();
    proof {
        lemma_lws_bounds(data@, pos as int, complete);
    }
    if pos < dlen && pos + 1 < dlen && data[pos] == CR && data[pos + 1] == LF {
        if pos + 1 + 1 == dlen {
            if complete {
                return Some(pos);
            }
            return None;
        }
        let c = data[pos + 2];
        if c == 32 || c == 9 {
            let n = scan_class(data, pos + 2, ByteClass::Spht);
            if !complete && pos + 2 + n == dlen {
                return None;
            }
            return Some(pos + 2 + n);
        }
        return Some(pos);
    }
    if !complete && pos < dlen && pos + 1 == dlen && data[pos] == CR {
        return None;
    }
    let n = scan_class(data, pos, ByteClass::Spht);
    if !complete && pos + n == dlen {
        return None;
    }
    Some(pos + n)
}

/// Parse a field name: the step ends at the colon, which stays unconsumed.
pub fn parse_field_name(data: &Vec<u8>, pos: usize, complete: bool) -> (r: Step<FieldName>)
    requires
        pos <= data@.len(),
    ensures
        r@ == spec_field_name(data@, pos as int, complete),
{
    let j = match skip_lws(data, pos, complete) {
        Some(j) => j,
        None => {
            return Step::More;
        },
    };
    match scan_byte(data, j, COLON) {
        None => {
            if complete {
                Step::Fail
            } else {
                Step::More
            }
        },
        Some(p) => {
            let raw = copy_range(data, j, p);
            let name = trim_end_ws_exec(&raw);
            Step::Done { value: FieldName(name), next: p }
        },
    }
}

/// Parse the value tokens from `pos` on.
fn parse_value_loop(data: &Vec<u8>, pos: usize, complete: bool) -> (r: Step<FieldValue>)
    requires
        pos <= data@.len(),
    ensures
        r@ == spec_value_loop(data@, pos as int, complete),
    decreases data@.len() - pos,
{
    let dlen = data.len();
    let n = scan_class(data, pos, ByteClass::NonWsp);
    if !complete && pos + n == dlen {
        return Step::More;
    }
    let j = pos + n;
    let m = scan_class(data, j, ByteClass::Spht);
    if m == 0 {
        let mut toks: Vec<FieldContent> = Vec::new();
        if n > 0 {
            toks.push(FieldContent(copy_range(data, pos, j)));
        }
        proof {
            if n > 0 {
                assert(toks@.map_values(|c: FieldContent| c@) =~= seq![
                    data@.subrange(pos as int, j as int),
                ]);
            } else {
                assert(toks@.map_values(|c: FieldContent| c@) =~= Seq::<Seq<u8>>::empty());
            }
        }
        return Step::Done { value: FieldValue(toks), next: j };
    }
    if !complete && j + m == dlen {
        return Step::More;
    }
    match parse_value_loop(data, j + m, complete) {
        Step::Done { value, next } => {
            let ghost restv = value@;
            let FieldValue(mut rest) = value;
            let mut toks: Vec<FieldContent> = Vec::new();
            if n > 0 {
                toks.push(FieldContent(copy_range(data, pos, j)));
            }
            let ghost toks0 = toks@.map_values(|c: FieldContent| c@);
            proof {
                if n > 0 {
                    assert(toks0 =~= seq![data@.subrange(pos as int, j as int)]);
                } else {
                    assert(toks0 =~= Seq::<Seq<u8>>::empty());
                }
            }
            toks.append(&mut rest);
            proof {
                assert(toks@.map_values(|c: FieldContent| c@) =~= toks0 + restv);
            }
            Step::Done { value: FieldValue(toks), next }
        },
        Step::More => Step::More,
        Step::Fail => Step::Fail,
    }
}

/// Parse a field value: optional leading space/tab, then the tokens.
pub fn parse_field_value(data: &Vec<u8>, pos: usize, complete: bool) -> (r: Step<FieldValue>)
    requires
        pos <= data@.len(),
    ensures
        r@ == spec_field_value(data@, pos as int, complete),
{
    let dlen = data.len();
    let w = scan_class(data, pos, ByteClass::Spht);
    if !complete && pos + w == dlen {
        return Step::More;
    }
    parse_value_loop(data, pos + w, complete)
}

/// Parse one header line: name, colon, value. A value with no tokens
/// becomes no value at all.
pub fn parse_message_header(data: &Vec<u8>, pos: usize, complete: bool) -> (r: Step<MessageHeader>)
    requires
        pos <= data@.len(),
    ensures
        r@ == spec_header(data@, pos as int, complete),
{
    let dlen = data.len();
    let name = match parse_field_name(data, pos, complete) {
        Step::Done { value, next } => {
            proof {
                lemma_name_bounds(data@, pos as int, complete);
            }
            (value, next)
        },
        Step::More => {
            return Step::More;
        },
        Step::Fail => {
            return Step::Fail;
        },
    };
    let (name, p) = name;
    match parse_field_value(data, p + 1, complete) {
        Step::Done { value, next } => {
            let field_value = if value.0.len() > 0 {
                Some(value)
            } else {
                None
            };
            Step::Done { value: MessageHeader { field_name: name, field_value }, next }
        },
        Step::More => Step::More,
        Step::Fail => Step::Fail,
    }
}

/// Parse the header section, through its terminating blank CRLF line.
pub fn parse_headers(data: &Vec<u8>, pos: usize, complete: bool) -> (r: Step<Vec<MessageHeader>>)
    requires
        pos <= data@.len(),
    ensures
        ({
            let g = spec_headers(data@, pos as int, complete);
            match r {
                Step::Done { value, next } => g matches StepV::Done { v, next: gn }
                    && value@.map_values(|h: MessageHeader| h@) == v && next == gn,
                Step::More => g is More,
                Step::Fail => g is Fail,
            }
        }),
    decreases data@.len() - pos,
{
    let dlen = data.len();
    if pos < dlen && pos + 1 < dlen && data[pos] == CR && data[pos + 1] == LF {
        let out: Vec<MessageHeader> = Vec::new();
        proof {
            assert(out@.map_values(|h: MessageHeader| h@) =~= Seq::<
                crate::message::HeaderV,
            >::empty());
        }
        return Step::Done { value: out, next: pos + 2 };
    }
    if !complete && (pos == dlen || (pos < dlen && pos + 1 == dlen && data[pos] == CR)) {
        return Step::More;
    }
    let h = match parse_message_header(data, pos, complete) {
        Step::Done { value, next } => {
            proof {
                lemma_header_bounds(data@, pos as int, complete);
            }
            (value, next)
        },
        Step::More => {
            return Step::More;
        },
        Step::Fail => {
            return Step::Fail;
        },
    };
    let (h, j) = h;
    if j < dlen && j + 1 < dlen && data[j] == CR && data[j + 1] == LF {
        match parse_headers(data, j + 2, complete) {
            Step::Done { value, next } => {
                let ghost restv = value@.map_values(|x: MessageHeader| x@);
                let ghost hv = h@;
                let mut out = value;
                out.insert(0, h);
                proof {
                    assert(out@.map_values(|x: MessageHeader| x@) =~= seq![hv] + restv);
                }
                Step::Done { value: out, next }
            },
            Step::More => Step::More,
            Step::Fail => Step::Fail,
        }
    } else if !complete && (j == dlen || (j < dlen && j + 1 == dlen && data[j] == CR)) {
        Step::More
    } else {
        Step::Fail
    }
}

/// Parse a full request: the request-line, the header section, and exactly
/// the `Content-Length` bytes of body iff that header carries a value that
/// reads as a 32-bit number.
pub fn parse_request(data: &Vec<u8>, pos: usize, complete: bool) -> (r: Step<Request>)
    requires
        pos <= data@.len(),
    ensures
        r@ == spec_request(data@, pos as int, complete),
{
    let rl = match parse_request_line(data, pos, complete) {
        Step::Done { value, next } => {
            proof {
                lemma_request_line_bounds(data@, pos as int, complete);
            }
            (value, next)
        },
        Step::More => {
            return Step::More;
        },
        Step::Fail => {
            return Step::Fail;
        },
    };
    let (rl, j) = rl;
    let headers = match parse_headers(data, j, complete) {
        Step::Done { value, next } => {
            proof {
                lemma_headers_bounds(data@, j as int, complete);
            }
            (value, next)
        },
        Step::More => {
            return Step::More;
        },
        Step::Fail => {
            return Step::Fail;
        },
    };
    let (headers, k) = headers;
    let mut req = Request { request_line: rl, headers, body: None };
    let cl = crate::handler::content_length_vec();
    let n_opt: Option<u32> = match req.find_value(cl.as_slice()) {
        None => None,
        Some(v) => match vec_u8_to_u32(&v) {
            Ok(nn) => Some(nn),
            Err(_) => None,
        },
    };
    match n_opt {
        None => Step::Done { value: req, next: k },
        Some(nn) => {
            if nn as usize <= data.len() - k {
                let end = k + (nn as usize);
                let body = copy_range(data, k, end);
                req.body = Some(MessageBody(body));
                Step::Done { value: req, next: end }
            } else if !complete {
                Step::More
            } else {
                Step::Fail
            }
        },
    }
}

} // verus!
