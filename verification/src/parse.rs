//! The message grammar. Every parser reads a byte buffer from a position and
//! answers one of three ways: a parsed value with the position after it, a
//! request for more bytes, or a malformed-input verdict. The `complete` flag
//! selects complete-mode parsing, where the end of the buffer is the end of
//! the input rather than a place where more bytes may still arrive.

use vstd::prelude::*;

verus! {

use crate::lex::{
    class_spec, dec_val, find_byte, lemma_run_len_bounds, lower, run_len, trim_end_ws, ByteClass,
    COLON, CR, LF,
};
use crate::message::{HeaderV, HttpVersion};
use crate::request::{MethodV, RequestLineV, RequestV};

/// A parse step: a value and the position after it, a request for more
/// bytes, or a malformed-input verdict.
pub enum Step<T> {
    Done { value: T, next: usize },
    More,
    Fail,
}

/// The mathematical shape of a parse step.
pub ghost enum StepV<T> {
    Done { v: T, next: int },
    More,
    Fail,
}

impl<T: View> View for Step<T> {
    type V = StepV<T::V>;

    open spec fn view(&self) -> StepV<T::V> {
        match self {
            Step::Done { value, next } => StepV::Done { v: value@, next: *next as int },
            Step::More => StepV::More,
            Step::Fail => StepV::Fail,
        }
    }
}

pub open spec fn spht_run(s: Seq<u8>, i: int) -> nat {
    run_len(s, i, class_spec(ByteClass::Spht))
}

pub open spec fn nonwsp_run(s: Seq<u8>, i: int) -> nat {
    run_len(s, i, class_spec(ByteClass::NonWsp))
}

pub open spec fn alpha_run(s: Seq<u8>, i: int) -> nat {
    run_len(s, i, class_spec(ByteClass::Alpha))
}

pub open spec fn digit_run(s: Seq<u8>, i: int) -> nat {
    run_len(s, i, class_spec(ByteClass::Digit))
}

/// `get`, lower case.
pub open spec fn get_lit() -> Seq<u8> {
    seq![103u8, 101u8, 116u8]
}

/// `post`, lower case.
pub open spec fn post_lit() -> Seq<u8> {
    seq![112u8, 111u8, 115u8, 116u8]
}

/// `HTTP/`.
pub open spec fn http_slash_lit() -> Seq<u8> {
    seq![72u8, 84u8, 84u8, 80u8, 47u8]
}

/// The input at `i` carries the whole literal, compared case-insensitively.
pub open spec fn ci_match(s: Seq<u8>, i: int, lit: Seq<u8>) -> bool {
    &&& i + lit.len() <= s.len()
    &&& forall|k: int| 0 <= k < lit.len() ==> lower(s[i + k]) == lit[k]
}

/// The input ends strictly inside the literal while matching it so far: more
/// bytes could still complete the match.
pub open spec fn ci_prefix(s: Seq<u8>, i: int, lit: Seq<u8>) -> bool {
    &&& s.len() - i < lit.len()
    &&& forall|k: int| 0 <= k < s.len() - i ==> lower(s[i + k]) == lit[k]
}

/// The input at `i` carries the whole literal, byte for byte.
pub open spec fn lit_match(s: Seq<u8>, i: int, lit: Seq<u8>) -> bool {
    &&& i + lit.len() <= s.len()
    &&& forall|k: int| 0 <= k < lit.len() ==> s[i + k] == lit[k]
}

/// The input ends strictly inside the literal while matching it so far.
pub open spec fn lit_prefix(s: Seq<u8>, i: int, lit: Seq<u8>) -> bool {
    &&& s.len() - i < lit.len()
    &&& forall|k: int| 0 <= k < s.len() - i ==> s[i + k] == lit[k]
}

/// Method: `get` or `post` case-insensitively, else the longest run of
/// alphabetic bytes, case preserved.
pub open spec fn spec_method(s: Seq<u8>, i: int, complete: bool) -> StepV<MethodV> {
    if ci_match(s, i, get_lit()) {
        StepV::Done { v: MethodV::Get, next: i + 3 }
    } else if !complete && ci_prefix(s, i, get_lit()) {
        StepV::More
    } else if ci_match(s, i, post_lit()) {
        StepV::Done { v: MethodV::Post, next: i + 4 }
    } else if !complete && ci_prefix(s, i, post_lit()) {
        StepV::More
    } else {
        let n = alpha_run(s, i) as int;
        if !complete && i + n == s.len() {
            StepV::More
        } else if n == 0 {
            StepV::Fail
        } else {
            StepV::Done { v: MethodV::Extension(s.subrange(i, i + n)), next: i + n }
        }
    }
}

/// Request-URI: at least one byte, up to the next whitespace (space, tab,
/// CR, LF).
pub open spec fn spec_uri(s: Seq<u8>, i: int, complete: bool) -> StepV<Seq<u8>> {
    let n = nonwsp_run(s, i) as int;
    if !complete && i + n == s.len() {
        StepV::More
    } else if n == 0 {
        StepV::Fail
    } else {
        StepV::Done { v: s.subrange(i, i + n), next: i + n }
    }
}

/// Field content: one value token, a maximal run of at least one
/// non-whitespace byte.
pub open spec fn spec_field_content(s: Seq<u8>, i: int, complete: bool) -> StepV<Seq<u8>> {
    let n = nonwsp_run(s, i) as int;
    if !complete && i + n == s.len() {
        StepV::More
    } else if n == 0 {
        StepV::Fail
    } else {
        StepV::Done { v: s.subrange(i, i + n), next: i + n }
    }
}

/// Version: the literal `HTTP/`, a digit run read as the major number, a
/// dot, and a digit run read as the minor number; a number that does not fit
/// in 32 bits is malformed.
pub open spec fn spec_version(s: Seq<u8>, i: int, complete: bool) -> StepV<HttpVersion> {
    if lit_match(s, i, http_slash_lit()) {
        let j = i + 5;
        let n1 = digit_run(s, j) as int;
        if n1 == 0 {
            if !complete && j == s.len() {
                StepV::More
            } else {
                StepV::Fail
            }
        } else if !complete && j + n1 == s.len() {
            StepV::More
        } else {
            let major = dec_val(s.subrange(j, j + n1));
            if major > u32::MAX {
                StepV::Fail
            } else {
                let k = j + n1;
                if k == s.len() {
                    if complete {
                        StepV::Fail
                    } else {
                        StepV::More
                    }
                } else if s[k] != 46 {
                    StepV::Fail
                } else {
                    let m = k + 1;
                    let n2 = digit_run(s, m) as int;
                    if n2 == 0 {
                        if !complete && m == s.len() {
                            StepV::More
                        } else {
                            StepV::Fail
                        }
                    } else if !complete && m + n2 == s.len() {
                        StepV::More
                    } else {
                        let minor = dec_val(s.subrange(m, m + n2));
                        if minor > u32::MAX {
                            StepV::Fail
                        } else {
                            StepV::Done {
                                v: HttpVersion { major: major as u32, minor: minor as u32 },
                                next: m + n2,
                            }
                        }
                    }
                }
            }
        }
    } else if !complete && lit_prefix(s, i, http_slash_lit()) {
        StepV::More
    } else {
        StepV::Fail
    }
}

/// Request-line: optional leading space/tab, method, required space/tab,
/// URI, required space/tab, version, optional space/tab, CRLF.
pub open spec fn spec_request_line(s: Seq<u8>, i: int, complete: bool) -> StepV<RequestLineV> {
    let w0 = spht_run(s, i) as int;
    if !complete && i + w0 == s.len() {
        StepV::More
    } else {
        match spec_method(s, i + w0, complete) {
            StepV::More => StepV::More,
            StepV::Fail => StepV::Fail,
            StepV::Done { v: m, next: a } => {
                let w1 = spht_run(s, a) as int;
                if !complete && a + w1 == s.len() {
                    StepV::More
                } else if w1 == 0 {
                    StepV::Fail
                } else {
                    match spec_uri(s, a + w1, complete) {
                        StepV::More => StepV::More,
                        StepV::Fail => StepV::Fail,
                        StepV::Done { v: u, next: b } => {
                            let w2 = spht_run(s, b) as int;
                            if !complete && b + w2 == s.len() {
                                StepV::More
                            } else if w2 == 0 {
                                StepV::Fail
                            } else {
                                match spec_version(s, b + w2, complete) {
                                    StepV::More => StepV::More,
                                    StepV::Fail => StepV::Fail,
                                    StepV::Done { v: ver, next: c } => {
                                        let w3 = spht_run(s, c) as int;
                                        if !complete && c + w3 == s.len() {
                                            StepV::More
                                        } else {
                                            let d = c + w3;
                                            if d + 2 <= s.len() && s[d] == CR && s[d + 1] == LF {
                                                StepV::Done {
                                                    v: RequestLineV {
                                                        method: m,
                                                        uri: u,
                                                        version: ver,
                                                    },
                                                    next: d + 2,
                                                }
                                            } else if !complete && d + 1 == s.len() && s[d]
                                                == CR {
                                                StepV::More
                                            } else {
                                                StepV::Fail
                                            }
                                        }
                                    },
                                }
                            }
                        },
                    }
                }
            },
        }
    }
}

/// Optional linear white space before a field name: either a CRLF followed
/// by at least one space or tab and then the whole space/tab run, or a plain
/// space/tab run. Yields the position after it.
pub open spec fn spec_lws_opt(s: Seq<u8>, i: int, complete: bool) -> StepV<int> {
    if i + 2 <= s.len() && s[i] == CR && s[i + 1] == LF {
        if i + 2 == s.len() {
            if complete {
                StepV::Done { v: i, next: i }
            } else {
                StepV::More
            }
        } else if class_spec(ByteClass::Spht)(s[i + 2]) {
            let n = spht_run(s, i + 2) as int;
            if !complete && i + 2 + n == s.len() {
                StepV::More
            } else {
                StepV::Done { v: i + 2 + n, next: i + 2 + n }
            }
        } else {
            StepV::Done { v: i, next: i }
        }
    } else if !complete && i + 1 == s.len() && s[i] == CR {
        StepV::More
    } else {
        let n = spht_run(s, i) as int;
        if !complete && i + n == s.len() {
            StepV::More
        } else {
            StepV::Done { v: i + n, next: i + n }
        }
    }
}

/// Field name: optional leading LWS, then everything up to (not including)
/// the next colon, with trailing whitespace trimmed. The step ends at the
/// colon. Without a colon the input is incomplete, or malformed once the
/// input is complete.
pub open spec fn spec_field_name(s: Seq<u8>, i: int, complete: bool) -> StepV<Seq<u8>> {
    match spec_lws_opt(s, i, complete) {
        StepV::More => StepV::More,
        StepV::Fail => StepV::Fail,
        StepV::Done { v: j, next: _ } => match find_byte(s, j, COLON) {
            None => if complete {
                StepV::Fail
            } else {
                StepV::More
            },
            Some(p) => StepV::Done { v: trim_end_ws(s.subrange(j, p)), next: p },
        },
    }
}

/// The value tokens from `i` on: space/tab-separated runs of non-whitespace
/// bytes, ending before the first byte that is neither. Trailing space/tab
/// after the last token is consumed.
pub open spec fn spec_value_loop(s: Seq<u8>, i: int, complete: bool) -> StepV<Seq<Seq<u8>>>
    decreases s.len() - i,
    via spec_value_loop_decreases
{
    let n = nonwsp_run(s, i) as int;
    if !complete && i + n == s.len() {
        StepV::More
    } else {
        let toks0: Seq<Seq<u8>> = if n > 0 {
            seq![s.subrange(i, i + n)]
        } else {
            seq![]
        };
        let j = i + n;
        let m = spht_run(s, j) as int;
        if m == 0 {
            StepV::Done { v: toks0, next: j }
        } else if !complete && j + m == s.len() {
            StepV::More
        } else {
            match spec_value_loop(s, j + m, complete) {
                StepV::Done { v: toks, next } => StepV::Done { v: toks0 + toks, next },
                x => x,
            }
        }
    }
}

#[via_fn]
proof fn spec_value_loop_decreases(s: Seq<u8>, i: int, complete: bool) {
    if 0 <= i <= s.len() {
        lemma_run_len_bounds(s, i, class_spec(ByteClass::NonWsp));
        lemma_run_len_bounds(s, i + nonwsp_run(s, i), class_spec(ByteClass::Spht));
    }
}

/// Field value: optional leading space/tab, then the value tokens.
pub open spec fn spec_field_value(s: Seq<u8>, i: int, complete: bool) -> StepV<Seq<Seq<u8>>> {
    let w = spht_run(s, i) as int;
    if !complete && i + w == s.len() {
        StepV::More
    } else {
        spec_value_loop(s, i + w, complete)
    }
}

/// Message header: field name, the colon, and the field value; a value with
/// no tokens collapses to no value at all.
pub open spec fn spec_header(s: Seq<u8>, i: int, complete: bool) -> StepV<HeaderV> {
    match spec_field_name(s, i, complete) {
        StepV::More => StepV::More,
        StepV::Fail => StepV::Fail,
        StepV::Done { v: name, next: p } => match spec_field_value(s, p + 1, complete) {
            StepV::More => StepV::More,
            StepV::Fail => StepV::Fail,
            StepV::Done { v: toks, next: end } => StepV::Done {
                v: HeaderV {
                    name,
                    value: if toks.len() > 0 {
                        Some(toks)
                    } else {
                        None
                    },
                },
                next: end,
            },
        },
    }
}

pub proof fn lemma_lws_bounds(s: Seq<u8>, i: int, complete: bool)
    requires
        0 <= i <= s.len(),
    ensures
        spec_lws_opt(s, i, complete) matches StepV::Done { v: j, next } ==> i <= j <= s.len()
            && next == j,
{
    lemma_run_len_bounds(s, i, class_spec(ByteClass::Spht));
    if i + 2 <= s.len() {
        lemma_run_len_bounds(s, i + 2, class_spec(ByteClass::Spht));
    }
}

pub proof fn lemma_name_bounds(s: Seq<u8>, i: int, complete: bool)
    requires
        0 <= i <= s.len(),
    ensures
        spec_field_name(s, i, complete) matches StepV::Done { v: _, next: p } ==> i <= p < s.len()
            && s[p] == COLON,
{
    lemma_lws_bounds(s, i, complete);
    match spec_lws_opt(s, i, complete) {
        StepV::Done { v: j, next: _ } => {
            crate::lex::lemma_find_byte(s, j, COLON);
        },
        _ => {},
    }
}

pub proof fn lemma_value_loop_bounds(s: Seq<u8>, i: int, complete: bool)
    requires
        0 <= i <= s.len(),
    ensures
        spec_value_loop(s, i, complete) matches StepV::Done { v: _, next } ==> i <= next <= s.len(),
    decreases s.len() - i,
{
    lemma_run_len_bounds(s, i, class_spec(ByteClass::NonWsp));
    let n = nonwsp_run(s, i) as int;
    lemma_run_len_bounds(s, i + n, class_spec(ByteClass::Spht));
    let m = spht_run(s, i + n) as int;
    if !(!complete && i + n == s.len()) && m > 0 && !(!complete && i + n + m == s.len()) {
        lemma_value_loop_bounds(s, i + n + m, complete);
    }
}

pub proof fn lemma_value_bounds(s: Seq<u8>, i: int, complete: bool)
    requires
        0 <= i <= s.len(),
    ensures
        spec_field_value(s, i, complete) matches StepV::Done { v: _, next } ==> i <= next
            <= s.len(),
{
    lemma_run_len_bounds(s, i, class_spec(ByteClass::Spht));
    let w = spht_run(s, i) as int;
    lemma_value_loop_bounds(s, i + w, complete);
}

pub proof fn lemma_header_bounds(s: Seq<u8>, i: int, complete: bool)
    requires
        0 <= i <= s.len(),
    ensures
        spec_header(s, i, complete) matches StepV::Done { v: _, next } ==> i + 1 <= next
            <= s.len(),
{
    lemma_name_bounds(s, i, complete);
    match spec_field_name(s, i, complete) {
        StepV::Done { v: _, next: p } => {
            lemma_value_bounds(s, p + 1, complete);
        },
        _ => {},
    }
}

/// The header section: zero or more headers, each terminated by CRLF, ended
/// by a blank CRLF line; the step ends after that blank line.
pub open spec fn spec_headers(s: Seq<u8>, i: int, complete: bool) -> StepV<Seq<HeaderV>>
    decreases s.len() - i,
    when 0 <= i <= s.len()
    via spec_headers_decreases
{
    if i + 2 <= s.len() && s[i] == CR && s[i + 1] == LF {
        StepV::Done { v: seq![], next: i + 2 }
    } else if !complete && (i == s.len() || (i + 1 == s.len() && s[i] == CR)) {
        StepV::More
    } else {
        match spec_header(s, i, complete) {
            StepV::More => StepV::More,
            StepV::Fail => StepV::Fail,
            StepV::Done { v: h, next: j } => {
                if j + 2 <= s.len() && s[j] == CR && s[j + 1] == LF {
                    match spec_headers(s, j + 2, complete) {
                        StepV::Done { v: hs, next: e } => StepV::Done { v: seq![h] + hs, next: e },
                        x => x,
                    }
                } else if !complete && (j == s.len() || (j + 1 == s.len() && s[j] == CR)) {
                    StepV::More
                } else {
                    StepV::Fail
                }
            },
        }
    }
}

#[via_fn]
proof fn spec_headers_decreases(s: Seq<u8>, i: int, complete: bool) {
    lemma_header_bounds(s, i, complete);
}

pub proof fn lemma_headers_bounds(s: Seq<u8>, i: int, complete: bool)
    requires
        0 <= i <= s.len(),
    ensures
        spec_headers(s, i, complete) matches StepV::Done { v: _, next } ==> i + 2 <= next
            <= s.len(),
    decreases s.len() - i,
{
    lemma_header_bounds(s, i, complete);
    match spec_header(s, i, complete) {
        StepV::Done { v: _, next: j } => {
            if j + 2 <= s.len() && s[j] == CR && s[j + 1] == LF {
                lemma_headers_bounds(s, j + 2, complete);
            }
        },
        _ => {},
    }
}

/// The `Content-Length` a header list announces: the joined value of the
/// most recent header of that name, read as a 32-bit number, if it reads as
/// one.
pub open spec fn spec_content_length(hs: Seq<HeaderV>) -> Option<u32> {
    match crate::request::spec_find_value(hs, crate::handler::content_length_name()) {
        None => None,
        Some(v) => crate::lex::spec_parse_u32(v),
    }
}

/// Where the body region begins: right after the header section's blank
/// CRLF line (meaningful where the request-line and header section parse).
pub open spec fn header_section_end(s: Seq<u8>, i: int, complete: bool) -> int {
    match spec_request_line(s, i, complete) {
        StepV::Done { v: _, next: j } => match spec_headers(s, j, complete) {
            StepV::Done { v: _, next: k } => k,
            _ => 0,
        },
        _ => 0,
    }
}

/// A full request: the request-line, the header section, then exactly `N`
/// body bytes iff the headers carry a `Content-Length` whose joined value
/// reads as a 32-bit number; with no valid `Content-Length`, no body bytes
/// are consumed no matter what follows.
pub open spec fn spec_request(s: Seq<u8>, i: int, complete: bool) -> StepV<RequestV> {
    match spec_request_line(s, i, complete) {
        StepV::More => StepV::More,
        StepV::Fail => StepV::Fail,
        StepV::Done { v: rl, next: j } => match spec_headers(s, j, complete) {
            StepV::More => StepV::More,
            StepV::Fail => StepV::Fail,
            StepV::Done { v: hs, next: k } => {
                match spec_content_length(hs) {
                    None => StepV::Done { v: RequestV { line: rl, headers: hs, body: None }, next: k },
                    Some(nn) => if k + nn <= s.len() {
                        StepV::Done {
                            v: RequestV {
                                line: rl,
                                headers: hs,
                                body: Some(s.subrange(k, k + nn)),
                            },
                            next: k + nn,
                        }
                    } else if !complete {
                        StepV::More
                    } else {
                        StepV::Fail
                    },
                }
            },
        },
    }
}

pub proof fn lemma_method_bounds(s: Seq<u8>, i: int, complete: bool)
    requires
        0 <= i <= s.len(),
    ensures
        spec_method(s, i, complete) matches StepV::Done { v: _, next } ==> i < next <= s.len(),
{
    lemma_run_len_bounds(s, i, class_spec(ByteClass::Alpha));
}

pub proof fn lemma_uri_bounds(s: Seq<u8>, i: int, complete: bool)
    requires
        0 <= i <= s.len(),
    ensures
        spec_uri(s, i, complete) matches StepV::Done { v: _, next } ==> i < next <= s.len(),
{
    lemma_run_len_bounds(s, i, class_spec(ByteClass::NonWsp));
}

pub proof fn lemma_version_bounds(s: Seq<u8>, i: int, complete: bool)
    requires
        0 <= i <= s.len(),
    ensures
        spec_version(s, i, complete) matches StepV::Done { v: _, next } ==> i < next <= s.len(),
{
    if lit_match(s, i, http_slash_lit()) {
        lemma_run_len_bounds(s, i + 5, class_spec(ByteClass::Digit));
        let n1 = digit_run(s, i + 5) as int;
        if i + 5 + n1 + 1 <= s.len() {
            lemma_run_len_bounds(s, i + 5 + n1 + 1, class_spec(ByteClass::Digit));
        }
    }
}

pub proof fn lemma_request_line_bounds(s: Seq<u8>, i: int, complete: bool)
    requires
        0 <= i <= s.len(),
    ensures
        spec_request_line(s, i, complete) matches StepV::Done { v: _, next } ==> i < next
            <= s.len(),
{
    lemma_run_len_bounds(s, i, class_spec(ByteClass::Spht));
    let w0 = spht_run(s, i) as int;
    lemma_method_bounds(s, i + w0, complete);
    match spec_method(s, i + w0, complete) {
        StepV::Done { v: _, next: a } => {
            lemma_run_len_bounds(s, a, class_spec(ByteClass::Spht));
            let w1 = spht_run(s, a) as int;
            lemma_uri_bounds(s, a + w1, complete);
            match spec_uri(s, a + w1, complete) {
                StepV::Done { v: _, next: b } => {
                    lemma_run_len_bounds(s, b, class_spec(ByteClass::Spht));
                    let w2 = spht_run(s, b) as int;
                    lemma_version_bounds(s, b + w2, complete);
                    match spec_version(s, b + w2, complete) {
                        StepV::Done { v: _, next: c } => {
                            lemma_run_len_bounds(s, c, class_spec(ByteClass::Spht));
                        },
                        _ => {},
                    }
                },
                _ => {},
            }
        },
        _ => {},
    }
}

pub proof fn lemma_request_bounds(s: Seq<u8>, i: int, complete: bool)
    requires
        0 <= i <= s.len(),
    ensures
        spec_request(s, i, complete) matches StepV::Done { v: _, next } ==> i < next <= s.len(),
{
    lemma_request_line_bounds(s, i, complete);
    match spec_request_line(s, i, complete) {
        StepV::Done { v: _, next: j } => {
            lemma_headers_bounds(s, j, complete);
        },
        _ => {},
    }
}

} // verus!
