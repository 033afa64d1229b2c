//! Line-oriented reading: pull one CRLF-terminated line from a buffer, and
//! the simple request-line reader built on it, which splits the line on
//! whitespace and recognizes only `GET`.

use vstd::prelude::*;

verus! {

use crate::error::Error;
use crate::lex::{
    class_spec, copy_range, find_byte, lemma_find_byte, lemma_run_len_bounds,
    lemma_run_shift, lower, run_len, scan_byte, scan_class, wsp_tokens, ByteClass, CR, LF,
};
use crate::request::RequestURI;
use crate::routes::{Route, RouteV};

/// Where a line's raw bytes end: the reader takes everything through the
/// first CR that is immediately followed by LF, or through the end of the
/// input. A CR not followed by LF does not end the line; scanning resumes
/// after the next LF.
pub open spec fn chunks_end(s: Seq<u8>, i: int) -> int
    decreases s.len() - i,
    when 0 <= i <= s.len()
    via chunks_end_decreases
{
    match find_byte(s, i, CR) {
        None => s.len() as int,
        Some(p) => if p + 1 == s.len() {
            s.len() as int
        } else {
            match find_byte(s, p + 1, LF) {
                None => s.len() as int,
                Some(q) => if q - p <= 1 {
                    q + 1
                } else {
                    chunks_end(s, q + 1)
                },
            }
        },
    }
}

#[via_fn]
proof fn chunks_end_decreases(s: Seq<u8>, i: int) {
    lemma_find_byte(s, i, CR);
    match find_byte(s, i, CR) {
        Some(p) => {
            if p + 1 < s.len() {
                lemma_find_byte(s, p + 1, LF);
            }
        },
        None => {},
    }
}

pub proof fn lemma_chunks_end_bounds(s: Seq<u8>, i: int)
    requires
        0 <= i <= s.len(),
    ensures
        i <= chunks_end(s, i) <= s.len(),
    decreases s.len() - i,
{
    lemma_find_byte(s, i, CR);
    match find_byte(s, i, CR) {
        Some(p) => {
            if p + 1 < s.len() {
                lemma_find_byte(s, p + 1, LF);
                match find_byte(s, p + 1, LF) {
                    Some(q) => {
                        if q - p > 1 {
                            lemma_chunks_end_bounds(s, q + 1);
                        }
                    },
                    None => {},
                }
            }
        },
        None => {},
    }
}

/// What one read of a line yields: the line's content with a trailing CRLF
/// stripped (or nothing, for an empty line), and the position after the
/// consumed bytes.
pub open spec fn spec_read_line(s: Seq<u8>, i: int) -> (Option<Seq<u8>>, int) {
    let e = chunks_end(s, i);
    let buf = s.subrange(i, e);
    let content = if buf.len() >= 2 && buf[buf.len() - 2] == CR && buf[buf.len() - 1] == LF {
        buf.take(buf.len() - 2)
    } else {
        buf
    };
    (
        if content.len() == 0 {
            None
        } else {
            Some(content)
        },
        e,
    )
}

/// Where the current line's raw bytes end.
fn line_end(data: &Vec<u8>, pos: usize) -> (e: usize)
    requires
        pos <= data@.len(),
    ensures
        e == chunks_end(data@, pos as int),
        pos <= e <= data@.len(),
    decreases data@.len() - pos,
{
    let dlen = data.len();
    match scan_byte(data, pos, CR) {
        None => dlen,
        Some(p) => {
            if p + 1 == dlen {
                dlen
            } else {
                match scan_byte(data, p + 1, LF) {
                    None => dlen,
                    Some(q) => {
                        if q - p <= 1 {
                            q + 1
                        } else {
                            line_end(data, q + 1)
                        }
                    },
                }
            }
        },
    }
}

/// Read one line: everything up to and including the first CRLF (a lone CR
/// does not end the line), with the CRLF stripped from the result. An empty
/// line, or exhausted input, reads as nothing. Returns the content and the
/// position after the consumed bytes.
pub fn read_until_crlf(data: &Vec<u8>, pos: usize) -> (r: (Option<Vec<u8>>, usize))
    requires
        pos <= data@.len(),
    ensures
        ({
            let (o, e) = spec_read_line(data@, pos as int);
            &&& r.1 == e
            &&& pos <= e <= data@.len()
            &&& match o {
                Some(c) => r.0 matches Some(v) && v@ == c,
                None => r.0 is None,
            }
        }),
{
    proof {
        lemma_chunks_end_bounds(data@, pos as int);
    }
    let e = line_end(data, pos);
    let buf = copy_range(data, pos, e);
    let blen = buf.len();
    let content = if blen >= 2 && buf[blen - 2] == CR && buf[blen - 1] == LF {
        let c = copy_range(&buf, 0, blen - 2);
        proof {
            assert(c@ =~= buf@.take(blen - 2));
        }
        c
    } else {
        buf
    };
    if content.len() == 0 {
        (None, e)
    } else {
        (Some(content), e)
    }
}

/// The whitespace-separated words of `data` from `pos` on.
fn ws_tokens_from(data: &Vec<u8>, pos: usize) -> (r: Vec<Vec<u8>>)
    requires
        pos <= data@.len(),
    ensures
        r@.map_values(|p: Vec<u8>| p@) == wsp_tokens(data@.skip(pos as int)),
    decreases data@.len() - pos,
{
    let ghost suf = data@.skip(pos as int);
    proof {
        assert(forall|t: int| 0 <= t < suf.len() ==> suf[t] == data@[pos + t]);
    }
    if pos == data.len() {
        let r: Vec<Vec<u8>> = Vec::new();
        proof {
            assert(r@.map_values(|p: Vec<u8>| p@) =~= wsp_tokens(suf));
        }
        r
    } else if crate::lex::is_ws_byte(data[pos]) {
        let r = ws_tokens_from(data, pos + 1);
        proof {
            assert(suf.skip(1) =~= data@.skip(pos + 1));
        }
        r
    } else {
        let n = scan_class(data, pos, ByteClass::NonWsp);
        proof {
            lemma_run_len_bounds(data@, pos as int, class_spec(ByteClass::NonWsp));
            assert((class_spec(ByteClass::NonWsp))(data@[pos as int]));
            lemma_run_shift(data@, pos as int, 0, ByteClass::NonWsp);
            assert(run_len(suf, 0, class_spec(ByteClass::NonWsp)) == n);
        }
        let tok = copy_range(data, pos, pos + n);
        let mut rest = ws_tokens_from(data, pos + n);
        rest.insert(0, tok);
        proof {
            assert(suf.take(n as int) =~= data@.subrange(pos as int, pos + n));
            assert(suf.skip(n as int) =~= data@.skip(pos + n));
            assert(rest@.map_values(|p: Vec<u8>| p@) =~= seq![suf.take(n as int)] + wsp_tokens(
                suf.skip(n as int),
            ));
        }
        rest
    }
}

/// The one method this reader recognizes.
#[derive(Debug, PartialEq, Eq, Clone, Copy, Structural)]
pub enum RequestMethod {
    Get,
}

/// A request-line read the simple way: one line, split on whitespace, with
/// the method required to be `GET` in any letter case.
#[derive(Debug)]
pub struct RequestLine {
    pub method: RequestMethod,
    pub route: Route,
    pub version: Vec<u8>,
}

/// A word that reads as `get`, case-insensitively.
pub open spec fn is_get_word(m: Seq<u8>) -> bool {
    m.len() == 3 && lower(m[0]) == 103 && lower(m[1]) == 101 && lower(m[2]) == 116
}

/// What the simple reader accepts: the first line's first word must read as
/// `get`; the second word picks the route; the third is kept as the
/// version. Missing words count as empty.
pub open spec fn spec_simple_request_line(s: Seq<u8>) -> Option<(RouteV, Seq<u8>)> {
    let (o, _) = spec_read_line(s, 0);
    match o {
        None => None,
        Some(line) => {
            let toks = wsp_tokens(line);
            if toks.len() >= 1 && is_get_word(toks[0]) {
                Some(
                    (
                        crate::routes::spec_route(
                            if toks.len() >= 2 {
                                toks[1]
                            } else {
                                Seq::empty()
                            },
                        ),
                        if toks.len() >= 3 {
                            toks[2]
                        } else {
                            Seq::empty()
                        },
                    ),
                )
            } else {
                None
            }
        },
    }
}

impl RequestLine {
    /// Read a request-line from the start of `data`: a method that must be
    /// `GET` in any case, the route its URI selects, and the version word.
    pub fn parse(data: &Vec<u8>) -> (r: Result<RequestLine, Error>)
        ensures
            match spec_simple_request_line(data@) {
                Some((rv, ver)) => r matches Ok(rl) && rl.method == RequestMethod::Get && rl.route@
                    == rv && rl.version@ == ver,
                None => r is Err,
            },
    {
        let (line_opt, _) = read_until_crlf(data, 0);
        let line = match line_opt {
            Some(l) => l,
            None => {
                return Err(Error::custom_str("cannot read request line"));
            },
        };
        let toks = ws_tokens_from(&line, 0);
        proof {
            assert(line@.skip(0) =~= line@);
        }
        if toks.len() == 0 {
            return Err(Error::custom_str("invalid method"));
        }
        let m = &toks[0];
        let is_get = m.len() == 3 && (m[0] == 103 || m[0] == 71) && (m[1] == 101 || m[1] == 69)
            && (m[2] == 116 || m[2] == 84);
        if !is_get {
            proof {
                assert(!is_get_word(toks@[0]@));
            }
            return Err(Error::custom_str("invalid method"));
        }
        proof {
            assert(is_get_word(toks@[0]@));
        }
        let route = if toks.len() >= 2 {
            Route::from_uri(&RequestURI(crate::lex::clone_bytes(&toks[1])))
        } else {
            Route::from_uri(&RequestURI(Vec::new()))
        };
        let version = if toks.len() >= 3 {
            crate::lex::clone_bytes(&toks[2])
        } else {
            Vec::new()
        };
        Ok(RequestLine { method: RequestMethod::Get, route, version })
    }
}

} // verus!
