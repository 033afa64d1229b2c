//! Laws relating the grammar and the serializer: what parsing guarantees
//! about the values it produces, and that serializing them reproduces
//! equivalent wire text.

use vstd::prelude::*;

verus! {

use crate::lex::{
    class_spec, dec_val, is_alpha, is_digit, is_spht, is_wsp, lemma_dec_rep_digits,
    lemma_run_of_exact, lemma_run_len_bounds, lower, trim_end_ws, ByteClass, COLON, CR,
    LF, SP,
};
use crate::message::{header_bytes, version_bytes, HeaderV, HttpVersion};
use crate::parse::{
    alpha_run, ci_match, ci_prefix, digit_run, get_lit, header_section_end, http_slash_lit,
    lit_match, nonwsp_run, post_lit, spec_content_length, spec_field_name,
    spec_field_value, spec_header, spec_lws_opt, spec_method, spec_request, spec_request_line,
    spec_uri, spec_value_loop, spec_version, spht_run, StepV,
};
use crate::request::{method_bytes, request_line_bytes, MethodV, RequestLineV};

/// The shape every parsed method has: the known tokens, or a non-empty
/// alphabetic run that does not begin with either known token.
pub open spec fn method_wf(m: MethodV) -> bool {
    match m {
        MethodV::Get => true,
        MethodV::Post => true,
        MethodV::Extension(b) => {
            &&& b.len() >= 1
            &&& forall|k: int| 0 <= k < b.len() ==> is_alpha(b[k])
            &&& !(b.len() >= 3 && (forall|k: int| 0 <= k < 3 ==> lower(b[k]) == get_lit()[k]))
            &&& !(b.len() >= 4 && (forall|k: int| 0 <= k < 4 ==> lower(b[k]) == post_lit()[k]))
        },
    }
}

/// The shape every parsed URI has: a non-empty run of non-whitespace bytes.
pub open spec fn uri_wf(u: Seq<u8>) -> bool {
    u.len() >= 1 && (forall|k: int| 0 <= k < u.len() ==> !is_wsp(u[k]))
}

pub open spec fn request_line_wf(rl: RequestLineV) -> bool {
    method_wf(rl.method) && uri_wf(rl.uri)
}

/// What parsing promises about the value it hands back.
pub proof fn lemma_parsed_method_wf(s: Seq<u8>, i: int, complete: bool)
    requires
        0 <= i <= s.len(),
    ensures
        spec_method(s, i, complete) matches StepV::Done { v: m, next } ==> method_wf(m) && next
            == i + method_bytes(m).len(),
{
    lemma_run_len_bounds(s, i, class_spec(ByteClass::Alpha));
    match spec_method(s, i, complete) {
        StepV::Done { v: m, next } => {
            match m {
                MethodV::Extension(b) => {
                    let n = alpha_run(s, i) as int;
                    assert(b =~= s.subrange(i, i + n));
                    assert(forall|k: int|
                        0 <= k < b.len() ==> (class_spec(ByteClass::Alpha))(#[trigger] b[k]));
                    assert(forall|k: int| 0 <= k < b.len() ==> is_alpha(b[k]));
                    assert(!ci_match(s, i, get_lit()));
                    if b.len() >= 3 && (forall|k: int| 0 <= k < 3 ==> lower(b[k]) == get_lit()[k]) {
                        assert(i + 3 <= s.len());
                        assert(forall|k: int| 0 <= k < 3 ==> lower(s[i + k]) == get_lit()[k]);
                        assert(ci_match(s, i, get_lit()));
                        assert(false);
                    }
                    if b.len() >= 4 && (forall|k: int|
                        0 <= k < 4 ==> lower(b[k]) == post_lit()[k]) {
                        assert(i + 4 <= s.len());
                        assert(forall|k: int| 0 <= k < 4 ==> lower(s[i + k]) == post_lit()[k]);
                        assert(ci_match(s, i, post_lit()));
                        assert(false);
                    }
                },
                _ => {},
            }
        },
        _ => {},
    }
}

pub proof fn lemma_parsed_uri_wf(s: Seq<u8>, i: int, complete: bool)
    requires
        0 <= i <= s.len(),
    ensures
        spec_uri(s, i, complete) matches StepV::Done { v: u, next } ==> uri_wf(u) && next == i
            + u.len(),
{
    lemma_run_len_bounds(s, i, class_spec(ByteClass::NonWsp));
    match spec_uri(s, i, complete) {
        StepV::Done { v: u, next } => {
            let n = nonwsp_run(s, i) as int;
            assert(u =~= s.subrange(i, i + n));
            assert(forall|k: int|
                0 <= k < u.len() ==> (class_spec(ByteClass::NonWsp))(#[trigger] u[k]));
        },
        _ => {},
    }
}

/// Parsing a well-formed method's rendering, followed by anything that
/// starts with a space, gives back exactly that method.
proof fn lemma_method_render_parse(m: MethodV, tail: Seq<u8>, complete: bool)
    requires
        method_wf(m),
        tail.len() >= 4,
        tail[0] == SP,
    ensures
        spec_method(method_bytes(m) + tail, 0, complete) == (StepV::Done {
            v: m,
            next: method_bytes(m).len() as int,
        }),
{
    let b = method_bytes(m);
    let s = b + tail;
    assert(s.len() == b.len() + tail.len());
    assert(forall|k: int| 0 <= k < b.len() ==> s[k] == b[k]);
    assert(forall|k: int| 0 <= k < tail.len() ==> s[b.len() + k] == tail[k]);
    match m {
        MethodV::Get => {
            assert(lower(s[0]) == 103 && lower(s[1]) == 101 && lower(s[2]) == 116);
            assert(ci_match(s, 0, get_lit()));
        },
        MethodV::Post => {
            assert(lower(s[0]) == 112);
            assert(!ci_match(s, 0, get_lit())) by {
                assert(lower(s[0]) != get_lit()[0]);
            }
            assert(!ci_prefix(s, 0, get_lit()));
            assert(lower(s[1]) == 111 && lower(s[2]) == 115 && lower(s[3]) == 116);
            assert(ci_match(s, 0, post_lit()));
        },
        MethodV::Extension(eb) => {
            let n = eb.len() as int;
            assert(forall|k: int| 0 <= k < n ==> s[k] == eb[k]);
            assert(s[n] == SP);
            // the rendering cannot read as one of the known tokens
            assert(!ci_match(s, 0, get_lit())) by {
                if ci_match(s, 0, get_lit()) {
                    if n >= 3 {
                        assert(forall|k: int| 0 <= k < 3 ==> lower(eb[k]) == get_lit()[k]);
                    } else {
                        assert(lower(s[n]) == 32);
                        assert(get_lit()[n] != 32);
                    }
                }
            }
            assert(!ci_prefix(s, 0, get_lit()));
            assert(!ci_match(s, 0, post_lit())) by {
                if ci_match(s, 0, post_lit()) {
                    if n >= 4 {
                        assert(forall|k: int| 0 <= k < 4 ==> lower(eb[k]) == post_lit()[k]);
                    } else {
                        assert(lower(s[n]) == 32);
                        assert(post_lit()[n] != 32);
                    }
                }
            }
            assert(!ci_prefix(s, 0, post_lit()));
            assert(forall|k: int|
                0 <= k < n ==> (class_spec(ByteClass::Alpha))(#[trigger] s[k]));
            assert(!(class_spec(ByteClass::Alpha))(s[n]));
            lemma_run_of_exact(s, 0, n, class_spec(ByteClass::Alpha));
            assert(alpha_run(s, 0) == n);
            assert(s.subrange(0, n) =~= eb);
        },
    }
}

/// Parsing a well-formed URI's rendering, followed by anything that starts
/// with a space, gives back exactly that URI.
proof fn lemma_uri_render_parse(u: Seq<u8>, tail: Seq<u8>, complete: bool)
    requires
        uri_wf(u),
        tail.len() >= 1,
        is_wsp(tail[0]),
    ensures
        spec_uri(u + tail, 0, complete) == (StepV::Done { v: u, next: u.len() as int }),
{
    let s = u + tail;
    let n = u.len() as int;
    assert(forall|k: int| 0 <= k < n ==> s[k] == u[k]);
    assert(s[n] == tail[0]);
    assert(forall|k: int| 0 <= k < n ==> (class_spec(ByteClass::NonWsp))(#[trigger] s[k]));
    assert(!(class_spec(ByteClass::NonWsp))(s[n]));
    lemma_run_of_exact(s, 0, n, class_spec(ByteClass::NonWsp));
    assert(s.subrange(0, n) =~= u);
}

/// Parsing a version's rendering, followed by anything that does not start
/// with a digit, gives back exactly that version.
proof fn lemma_version_render_parse(v: HttpVersion, tail: Seq<u8>, complete: bool)
    requires
        tail.len() >= 1,
        !is_digit(tail[0]),
    ensures
        spec_version(version_bytes(v) + tail, 0, complete) == (StepV::Done {
            v,
            next: version_bytes(v).len() as int,
        }),
{
    let mj = crate::lex::dec_rep(v.major as nat);
    let mn = crate::lex::dec_rep(v.minor as nat);
    lemma_dec_rep_digits(v.major as nat);
    lemma_dec_rep_digits(v.minor as nat);
    let b = version_bytes(v);
    let s = b + tail;
    assert(b =~= http_slash_lit() + mj + seq![46u8] + mn);
    let a = mj.len() as int;
    let c = mn.len() as int;
    assert(forall|k: int| 0 <= k < 5 ==> s[k] == http_slash_lit()[k]);
    assert(lit_match(s, 0, http_slash_lit()));
    assert(forall|k: int| 0 <= k < a ==> s[5 + k] == mj[k]);
    assert(s[5 + a] == 46);
    assert(forall|k: int| 0 <= k < c ==> s[5 + a + 1 + k] == mn[k]);
    assert(s[5 + a + 1 + c] == tail[0]);
    assert(forall|k: int|
        5 <= k < 5 + a ==> (class_spec(ByteClass::Digit))(#[trigger] s[k]));
    assert(!(class_spec(ByteClass::Digit))(s[5 + a]));
    lemma_run_of_exact(s, 5, a, class_spec(ByteClass::Digit));
    assert(digit_run(s, 5) == a);
    assert(s.subrange(5, 5 + a) =~= mj);
    assert(dec_val(s.subrange(5, 5 + a)) == v.major as nat);
    assert(forall|k: int|
        5 + a + 1 <= k < 5 + a + 1 + c ==> (class_spec(ByteClass::Digit))(#[trigger] s[k]));
    assert(!(class_spec(ByteClass::Digit))(s[5 + a + 1 + c]));
    lemma_run_of_exact(s, 5 + a + 1, c, class_spec(ByteClass::Digit));
    assert(digit_run(s, 5 + a + 1) == c);
    assert(s.subrange(5 + a + 1, 5 + a + 1 + c) =~= mn);
    assert(dec_val(s.subrange(5 + a + 1, 5 + a + 1 + c)) == v.minor as nat);
    assert(b.len() == 5 + a + 1 + c);
}

/// The first half of the request-line rendering parses back: no leading
/// whitespace, the method, one space, the URI.
#[verifier::spinoff_prover]
proof fn lemma_round_trip_front(rl: RequestLineV, complete: bool)
    requires
        request_line_wf(rl),
    ensures
        ({
            let s = request_line_bytes(rl);
            let ml = method_bytes(rl.method).len() as int;
            let ul = rl.uri.len() as int;
            &&& s.len() == ml + 1 + ul + 1 + version_bytes(rl.version).len() + 2
            &&& spht_run(s, 0) == 0
            &&& spec_method(s, 0, complete) == (StepV::Done { v: rl.method, next: ml })
            &&& spht_run(s, ml) == 1
            &&& spec_uri(s, ml + 1, complete) == (StepV::Done { v: rl.uri, next: ml + 1 + ul })
        }),
{
    let mb = method_bytes(rl.method);
    let vb = version_bytes(rl.version);
    let s = request_line_bytes(rl);
    let ml = mb.len() as int;
    let ul = rl.uri.len() as int;
    let vl = vb.len() as int;
    let tail1 = seq![SP] + rl.uri + seq![SP] + vb + seq![CR, LF];
    assert(s =~= mb + tail1);
    assert(s.len() == ml + 1 + ul + 1 + vl + 2);
    lemma_dec_rep_digits(rl.version.major as nat);
    lemma_dec_rep_digits(rl.version.minor as nat);
    assert(vl >= 7);

    assert(ml >= 1);
    assert(is_alpha(mb[0])) by {
        match rl.method {
            MethodV::Get => assert(mb[0] == 71),
            MethodV::Post => assert(mb[0] == 80),
            MethodV::Extension(eb) => assert(is_alpha(eb[0])),
        }
    }
    assert(s[0] == mb[0]);
    assert(!(class_spec(ByteClass::Spht))(s[0]));
    lemma_run_of_exact(s, 0, 0, class_spec(ByteClass::Spht));

    assert(tail1[0] == SP);
    assert(tail1.len() >= 4);
    lemma_method_render_parse(rl.method, tail1, complete);

    assert(s[ml] == SP);
    assert(s[ml + 1] == rl.uri[0]);
    assert(!is_wsp(rl.uri[0]));
    assert((class_spec(ByteClass::Spht))(s[ml]));
    assert(!(class_spec(ByteClass::Spht))(s[ml + 1]));
    lemma_run_of_exact(s, ml, 1, class_spec(ByteClass::Spht));

    let tail2 = seq![SP] + vb + seq![CR, LF];
    assert(s.subrange(ml + 1, s.len() as int) =~= rl.uri + tail2);
    lemma_uri_render_parse(rl.uri, tail2, complete);
    lemma_parse_uri_shift(s, ml + 1, rl.uri, tail2, complete);
}

/// The second half of the request-line rendering parses back: one space,
/// the version, no trailing whitespace, the final CRLF.
#[verifier::spinoff_prover]
proof fn lemma_round_trip_back(rl: RequestLineV, complete: bool)
    requires
        request_line_wf(rl),
    ensures
        ({
            let s = request_line_bytes(rl);
            let ml = method_bytes(rl.method).len() as int;
            let ul = rl.uri.len() as int;
            let vl = version_bytes(rl.version).len() as int;
            let q = ml + 1 + ul;
            let d = q + 1 + vl;
            &&& spht_run(s, q) == 1
            &&& spec_version(s, q + 1, complete) == (StepV::Done {
                v: rl.version,
                next: q + 1 + vl,
            })
            &&& spht_run(s, d) == 0
            &&& s[d] == CR
            &&& s[d + 1] == LF
            &&& d + 2 == s.len()
        }),
{
    let mb = method_bytes(rl.method);
    let vb = version_bytes(rl.version);
    let s = request_line_bytes(rl);
    let ml = mb.len() as int;
    let ul = rl.uri.len() as int;
    let vl = vb.len() as int;
    assert(s =~= mb + seq![SP] + rl.uri + seq![SP] + vb + seq![CR, LF]);
    assert(s.len() == ml + 1 + ul + 1 + vl + 2);
    lemma_dec_rep_digits(rl.version.major as nat);
    lemma_dec_rep_digits(rl.version.minor as nat);
    assert(vl >= 7);

    let q = ml + 1 + ul;
    assert(s[q] == SP);
    assert(s[q + 1] == vb[0]);
    assert(vb[0] == 72);
    assert((class_spec(ByteClass::Spht))(s[q]));
    assert(!(class_spec(ByteClass::Spht))(s[q + 1]));
    lemma_run_of_exact(s, q, 1, class_spec(ByteClass::Spht));

    let tail3 = seq![CR, LF];
    assert(s.subrange(q + 1, s.len() as int) =~= vb + tail3);
    assert(!is_digit(tail3[0]));
    lemma_version_render_parse(rl.version, tail3, complete);
    lemma_parse_version_shift(s, q + 1, rl.version, tail3, complete);

    let d = q + 1 + vl;
    assert(s[d] == CR);
    assert(!(class_spec(ByteClass::Spht))(s[d]));
    lemma_run_of_exact(s, d, 0, class_spec(ByteClass::Spht));
    assert(s[d + 1] == LF);
}

/// Serializing a parsed request-line reproduces an equivalent request-line:
/// parsing the rendering, in either mode, yields exactly the same value,
/// consuming the whole rendering. With the hypothesis discharged by
/// `lemma_parsed_method_wf` and `lemma_parsed_uri_wf`, this holds of every
/// request-line the parser accepts.
#[verifier::spinoff_prover]
pub proof fn lemma_request_line_round_trip(rl: RequestLineV, complete: bool)
    requires
        request_line_wf(rl),
    ensures
        spec_request_line(request_line_bytes(rl), 0, complete) == (StepV::Done {
            v: rl,
            next: request_line_bytes(rl).len() as int,
        }),
{
    let s = request_line_bytes(rl);
    let ml = method_bytes(rl.method).len() as int;
    let ul = rl.uri.len() as int;
    let vl = version_bytes(rl.version).len() as int;
    lemma_round_trip_front(rl, complete);
    lemma_round_trip_back(rl, complete);
    let q = ml + 1 + ul;
    let d = q + 1 + vl;
    assert(spec_request_line(s, 0, complete) == (StepV::Done { v: rl, next: d + 2 }));
}

/// For every byte sequence that parses as a request-line, serializing the
/// parsed value reproduces an equivalent request-line: the rendering parses
/// back, in either mode, to exactly the same value. The round trip
/// normalizes whitespace and the method token; it need not reproduce the
/// input bytes.
pub proof fn lemma_parse_then_render(s: Seq<u8>, i: int, complete: bool)
    requires
        0 <= i <= s.len(),
    ensures
        spec_request_line(s, i, complete) matches StepV::Done { v: rl, next } ==> ({
            &&& request_line_wf(rl)
            &&& spec_request_line(request_line_bytes(rl), 0, complete) == (StepV::Done {
                v: rl,
                next: request_line_bytes(rl).len() as int,
            })
        }),
{
    lemma_run_len_bounds(s, i, class_spec(ByteClass::Spht));
    let w0 = spht_run(s, i) as int;
    crate::parse::lemma_method_bounds(s, i + w0, complete);
    lemma_parsed_method_wf(s, i + w0, complete);
    match spec_method(s, i + w0, complete) {
        StepV::Done { v: _, next: a } => {
            lemma_run_len_bounds(s, a, class_spec(ByteClass::Spht));
            let w1 = spht_run(s, a) as int;
            lemma_parsed_uri_wf(s, a + w1, complete);
            match spec_request_line(s, i, complete) {
                StepV::Done { v: rl, next: _ } => {
                    lemma_request_line_round_trip(rl, complete);
                },
                _ => {},
            }
        },
        _ => {},
    }
}

/// A header with an empty field value renders as `<name>:`, with no value
/// and no trailing space, and parsing that same text back (as a complete
/// input) yields a header with no value.
pub proof fn lemma_empty_value_header(name: Seq<u8>)
    requires
        forall|k: int| 0 <= k < name.len() ==> name[k] != COLON,
        name.len() > 0 ==> !is_spht(name[0]) && name[0] != CR,
        trim_end_ws(name) == name,
    ensures
        header_bytes(HeaderV { name, value: None }) == name + seq![COLON],
        spec_header(name + seq![COLON], 0, true) == (StepV::Done {
            v: HeaderV { name, value: None },
            next: name.len() + 1int,
        }),
{
    let s = name + seq![COLON];
    let nl = name.len() as int;
    assert(forall|k: int| 0 <= k < nl ==> s[k] == name[k]);
    assert(s[nl] == COLON);
    assert(s.len() == nl + 1);
    // no leading white space is consumed
    assert(s[0] != CR);
    assert(!is_spht(s[0]));
    assert(!(class_spec(ByteClass::Spht))(s[0]));
    lemma_run_of_exact(s, 0, 0, class_spec(ByteClass::Spht));
    assert(spht_run(s, 0) == 0);
    assert(spec_lws_opt(s, 0, true) == (StepV::Done { v: 0int, next: 0int }));
    // the first colon sits right after the name
    crate::lex::lemma_find_byte(s, 0, COLON);
    match crate::lex::find_byte(s, 0, COLON) {
        Some(p) => {
            assert(s[p] == COLON);
            assert(p <= nl);
            assert(p == nl);
        },
        None => {
            assert(s[nl] == COLON);
            assert(false);
        },
    }
    assert(s.subrange(0, nl) =~= name);
    assert(spec_field_name(s, 0, true) == (StepV::Done { v: name, next: nl }));
    // past the colon the input ends: no tokens, so no value
    lemma_run_of_exact(s, nl + 1, 0, class_spec(ByteClass::Spht));
    lemma_run_of_exact(s, nl + 1, 0, class_spec(ByteClass::NonWsp));
    assert(spec_value_loop(s, nl + 1, true) == (StepV::Done {
        v: Seq::<Seq<u8>>::empty(),
        next: nl + 1,
    }));
    assert(spec_field_value(s, nl + 1, true) == (StepV::Done {
        v: Seq::<Seq<u8>>::empty(),
        next: nl + 1,
    }));
}

/// Body framing: a request whose headers announce a `Content-Length` that
/// reads as `N` carries exactly the `N` bytes after the header section as
/// its body, no more and no fewer, regardless of trailing data; a request
/// without a valid `Content-Length` carries no body at all, even if more
/// bytes follow in the stream.
pub proof fn lemma_body_framing(s: Seq<u8>, i: int, complete: bool)
    requires
        0 <= i <= s.len(),
    ensures
        spec_request(s, i, complete) matches StepV::Done { v: req, next } ==> ({
            let k = header_section_end(s, i, complete);
            match spec_content_length(req.headers) {
                Some(n) => req.body matches Some(b) && b == s.subrange(k, k + n) && b.len() == n
                    && next == k + n,
                None => req.body is None && next == k,
            }
        }),
{
    crate::parse::lemma_request_line_bounds(s, i, complete);
    match spec_request_line(s, i, complete) {
        StepV::Done { v: _, next: j } => {
            crate::parse::lemma_headers_bounds(s, j, complete);
            match crate::parse::spec_headers(s, j, complete) {
                StepV::Done { v: hs, next: k } => {
                    assert(header_section_end(s, i, complete) == k);
                    match spec_content_length(hs) {
                        Some(n) => {
                            if k + n <= s.len() {
                                assert(s.subrange(k, k + n).len() == n);
                            }
                        },
                        None => {},
                    }
                },
                _ => {},
            }
        },
        _ => {},
    }
}

/// Parsing a URI is a local affair: it reads the same from a position in a
/// larger buffer as from the start of the suffix at that position.
proof fn lemma_parse_uri_shift(s: Seq<u8>, i: int, u: Seq<u8>, tail: Seq<u8>, complete: bool)
    requires
        0 <= i <= s.len(),
        s.subrange(i, s.len() as int) == u + tail,
        spec_uri(u + tail, 0, complete) == (StepV::Done { v: u, next: u.len() as int }),
    ensures
        spec_uri(s, i, complete) == (StepV::Done { v: u, next: i + u.len() }),
{
    let suf = s.subrange(i, s.len() as int);
    crate::lex::lemma_run_shift(s, i, 0, ByteClass::NonWsp);
    assert(nonwsp_run(s, i) == nonwsp_run(suf, 0));
    lemma_run_len_bounds(suf, 0, class_spec(ByteClass::NonWsp));
    let n = nonwsp_run(suf, 0) as int;
    assert(s.subrange(i, i + n) =~= suf.subrange(0, n));
}

/// Parsing a version is likewise local.
proof fn lemma_parse_version_shift(
    s: Seq<u8>,
    i: int,
    v: HttpVersion,
    tail: Seq<u8>,
    complete: bool,
)
    requires
        0 <= i <= s.len(),
        s.subrange(i, s.len() as int) == version_bytes(v) + tail,
        spec_version(version_bytes(v) + tail, 0, complete) == (StepV::Done {
            v,
            next: version_bytes(v).len() as int,
        }),
    ensures
        spec_version(s, i, complete) == (StepV::Done { v, next: i + version_bytes(v).len() }),
{
    let suf = s.subrange(i, s.len() as int);
    assert(forall|k: int| 0 <= k < suf.len() ==> s[i + k] == suf[k]);
    assert(lit_match(s, i, http_slash_lit()) == lit_match(suf, 0, http_slash_lit())) by {
        if lit_match(suf, 0, http_slash_lit()) {
            assert(forall|k: int| 0 <= k < 5 ==> s[i + k] == http_slash_lit()[k]);
        }
        if lit_match(s, i, http_slash_lit()) {
            assert(forall|k: int| 0 <= k < 5 ==> suf[k] == http_slash_lit()[k]);
        }
    }
    crate::lex::lemma_run_shift(s, i, 5, ByteClass::Digit);
    assert(digit_run(s, i + 5) == digit_run(suf, 5));
    let n1 = digit_run(suf, 5) as int;
    lemma_run_len_bounds(suf, 5, class_spec(ByteClass::Digit));
    assert(s.subrange(i + 5, i + 5 + n1) =~= suf.subrange(5, 5 + n1));
    if 5 + n1 < suf.len() {
        assert(s[i + 5 + n1] == suf[5 + n1]);
        crate::lex::lemma_run_shift(s, i, 5 + n1 + 1, ByteClass::Digit);
        assert(digit_run(s, i + 5 + n1 + 1) == digit_run(suf, 5 + n1 + 1));
        let n2 = digit_run(suf, 5 + n1 + 1) as int;
        lemma_run_len_bounds(suf, 5 + n1 + 1, class_spec(ByteClass::Digit));
        assert(s.subrange(i + 5 + n1 + 1, i + 5 + n1 + 1 + n2) =~= suf.subrange(
            5 + n1 + 1,
            5 + n1 + 1 + n2,
        ));
    }
}

} // verus!
