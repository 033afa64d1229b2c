//! The router: a route is a pure function of the request-URI path, split on
//! `/` with the segment after the first slash deciding the handler. Path
//! segments after the route name are concatenated without re-inserting the
//! separator, which is part of the observed contract.

use vstd::prelude::*;

verus! {

use crate::lex::{spec_concat, spec_split, split_byte};
use crate::request::RequestURI;

pub const SLASH: u8 = 47;

/// The fixed set of handlers a request can dispatch to.
#[derive(Debug, PartialEq, Eq)]
pub enum Route {
    Root,
    Echo { command: Vec<u8> },
    UserAgent,
    Files { filename: Vec<u8> },
    Unknown,
}

/// The mathematical shape of a route.
pub ghost enum RouteV {
    Root,
    Echo(Seq<u8>),
    UserAgent,
    Files(Seq<u8>),
    Unknown,
}

impl View for Route {
    type V = RouteV;

    open spec fn view(&self) -> RouteV {
        match self {
            Route::Root => RouteV::Root,
            Route::Echo { command } => RouteV::Echo(command@),
            Route::UserAgent => RouteV::UserAgent,
            Route::Files { filename } => RouteV::Files(filename@),
            Route::Unknown => RouteV::Unknown,
        }
    }
}

/// `/echo` as bytes.
pub open spec fn echo_name() -> Seq<u8> {
    seq![101u8, 99u8, 104u8, 111u8]
}

/// `user-agent` as bytes.
pub open spec fn user_agent_name() -> Seq<u8> {
    seq![117u8, 115u8, 101u8, 114u8, 45u8, 97u8, 103u8, 101u8, 110u8, 116u8]
}

/// `files` as bytes.
pub open spec fn files_name() -> Seq<u8> {
    seq![102u8, 105u8, 108u8, 101u8, 115u8]
}

/// The route a URI selects: the URI splits on `/`; the segment after the
/// first slash picks the handler; the remaining segments, concatenated with
/// no separator between them, are the handler's argument.
pub open spec fn spec_route(uri: Seq<u8>) -> RouteV {
    let parts = spec_split(uri, SLASH);
    if parts.len() <= 1 {
        RouteV::Unknown
    } else if parts[1] == Seq::<u8>::empty() {
        RouteV::Root
    } else if parts[1] == echo_name() {
        RouteV::Echo(spec_concat(parts.skip(2)))
    } else if parts[1] == user_agent_name() {
        RouteV::UserAgent
    } else if parts[1] == files_name() {
        RouteV::Files(spec_concat(parts.skip(2)))
    } else {
        RouteV::Unknown
    }
}

/// Concatenate every piece of `parts` from index `from` on.
fn concat_from(parts: &Vec<Vec<u8>>, from: usize) -> (r: Vec<u8>)
    requires
        from <= parts@.len(),
    ensures
        r@ == spec_concat(parts@.map_values(|p: Vec<u8>| p@).skip(from as int)),
{
    let ghost ps = parts@.map_values(|p: Vec<u8>| p@);
    let mut out: Vec<u8> = Vec::new();
    let mut i: usize = from;
    proof {
        lemma_concat_take_step(ps, from as int, from as int);
    }
    while i < parts.len()
        invariant
            from <= i <= parts@.len(),
            ps == parts@.map_values(|p: Vec<u8>| p@),
            ps.len() == parts@.len(),
            out@ + spec_concat(ps.skip(i as int)) == spec_concat(ps.skip(from as int)),
        decreases parts@.len() - i,
    {
        let mut piece = crate::lex::clone_bytes(&parts[i]);
        out.append(&mut piece);
        proof {
            assert(ps.skip(i as int)[0] == ps[i as int]);
            assert(ps.skip(i as int).skip(1) =~= ps.skip(i + 1));
            assert(spec_concat(ps.skip(i as int)) == ps[i as int] + spec_concat(ps.skip(i + 1)));
            assert(out@ + spec_concat(ps.skip(i + 1)) =~= spec_concat(ps.skip(from as int)));
        }
        i = i + 1;
    }
    proof {
        assert(ps.skip(ps.len() as int) =~= Seq::<Seq<u8>>::empty());
        assert(spec_concat(Seq::<Seq<u8>>::empty()) == Seq::<u8>::empty());
        assert(out@ =~= out@ + Seq::<u8>::empty());
    }
    out
}

proof fn lemma_concat_take_step(ps: Seq<Seq<u8>>, from: int, i: int)
    requires
        0 <= from <= i <= ps.len(),
    ensures
        Seq::<u8>::empty() + spec_concat(ps.skip(from)) == spec_concat(ps.skip(from)),
{
    assert(Seq::<u8>::empty() + spec_concat(ps.skip(from)) =~= spec_concat(ps.skip(from)));
}

/// The bytes of `echo`.
fn echo_vec() -> (v: Vec<u8>)
    ensures
        v@ == echo_name(),
{
    let mut v: Vec<u8> = Vec::new();
    v.push(101);
    v.push(99);
    v.push(104);
    v.push(111);
    proof {
        assert(v@ =~= echo_name());
    }
    v
}

/// The bytes of `user-agent`.
fn user_agent_vec() -> (v: Vec<u8>)
    ensures
        v@ == user_agent_name(),
{
    let mut v: Vec<u8> = Vec::new();
    v.push(117);
    v.push(115);
    v.push(101);
    v.push(114);
    v.push(45);
    v.push(97);
    v.push(103);
    v.push(101);
    v.push(110);
    v.push(116);
    proof {
        assert(v@ =~= user_agent_name());
    }
    v
}

/// The bytes of `files`.
fn files_vec() -> (v: Vec<u8>)
    ensures
        v@ == files_name(),
{
    let mut v: Vec<u8> = Vec::new();
    v.push(102);
    v.push(105);
    v.push(108);
    v.push(101);
    v.push(115);
    proof {
        assert(v@ =~= files_name());
    }
    v
}

impl Route {
    /// The route the URI selects.
    pub fn from_uri(uri: &RequestURI) -> (r: Route)
        ensures
            r@ == spec_route(uri@),
    {
        let parts = split_byte(&uri.0, SLASH);
        let ghost ps = parts@.map_values(|p: Vec<u8>| p@);
        if parts.len() <= 1 {
            return Route::Unknown;
        }
        let second = &parts[1];
        if second.len() == 0 {
            proof {
                assert(ps[1] =~= Seq::<u8>::empty());
            }
            Route::Root
        } else if crate::lex::bytes_eq(second.as_slice(), echo_vec().as_slice()) {
            Route::Echo { command: concat_from(&parts, 2) }
        } else if crate::lex::bytes_eq(second.as_slice(), user_agent_vec().as_slice()) {
            Route::UserAgent
        } else if crate::lex::bytes_eq(second.as_slice(), files_vec().as_slice()) {
            Route::Files { filename: concat_from(&parts, 2) }
        } else {
            proof {
                assert(ps[1] != Seq::<u8>::empty());
            }
            Route::Unknown
        }
    }
}

} // verus!
