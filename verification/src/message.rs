//! The message data model: header field names, contents and values, message
//! headers, bodies, and the protocol version, together with their wire
//! renderings.

use vstd::prelude::*;

verus! {

use crate::lex::{dec_rep, COLON, SP};

/// A header field's name: raw bytes, compared by exact byte equality.
#[derive(Debug, PartialEq, Eq, Clone)]
pub struct FieldName(pub Vec<u8>);

/// One whitespace-delimited token of a header value.
#[derive(Debug, PartialEq, Eq, Clone)]
pub struct FieldContent(pub Vec<u8>);

/// A header value: the ordered tokens it is made of.
#[derive(Debug, PartialEq, Eq, Clone)]
pub struct FieldValue(pub Vec<FieldContent>);

/// A header line: a name, and its value unless the value was empty.
#[derive(Debug, PartialEq, Eq, Clone)]
pub struct MessageHeader {
    pub field_name: FieldName,
    pub field_value: Option<FieldValue>,
}

/// An opaque byte payload.
#[derive(Debug, PartialEq, Eq, Clone)]
pub struct MessageBody(pub Vec<u8>);

/// The protocol version, parsed from `HTTP/<major>.<minor>`.
#[derive(Debug, PartialEq, Eq, Clone, Copy, Structural)]
pub struct HttpVersion {
    pub major: u32,
    pub minor: u32,
}

impl View for HttpVersion {
    type V = HttpVersion;

    open spec fn view(&self) -> HttpVersion {
        *self
    }
}

/// The mathematical shape of a header: its name and optional value tokens.
pub ghost struct HeaderV {
    pub name: Seq<u8>,
    pub value: Option<Seq<Seq<u8>>>,
}

impl View for FieldName {
    type V = Seq<u8>;

    open spec fn view(&self) -> Seq<u8> {
        self.0@
    }
}

impl View for FieldContent {
    type V = Seq<u8>;

    open spec fn view(&self) -> Seq<u8> {
        self.0@
    }
}

impl View for FieldValue {
    type V = Seq<Seq<u8>>;

    open spec fn view(&self) -> Seq<Seq<u8>> {
        self.0@.map_values(|c: FieldContent| c@)
    }
}

impl View for MessageBody {
    type V = Seq<u8>;

    open spec fn view(&self) -> Seq<u8> {
        self.0@
    }
}

impl View for MessageHeader {
    type V = HeaderV;

    open spec fn view(&self) -> HeaderV {
        HeaderV {
            name: self.field_name@,
            value: match self.field_value {
                Some(v) => Some(v@),
                None => None,
            },
        }
    }
}

/// Value tokens joined by single spaces.
pub open spec fn join_tokens(toks: Seq<Seq<u8>>) -> Seq<u8>
    decreases toks.len(),
{
    if toks.len() == 0 {
        Seq::empty()
    } else if toks.len() == 1 {
        toks[0]
    } else {
        toks[0] + seq![SP] + join_tokens(toks.skip(1))
    }
}

pub proof fn lemma_join_push(a: Seq<Seq<u8>>, t: Seq<u8>)
    ensures
        join_tokens(a.push(t)) == if a.len() == 0 {
            t
        } else {
            join_tokens(a) + seq![SP] + t
        },
    decreases a.len(),
{
    let p = a.push(t);
    if a.len() == 0 {
        assert(p.len() == 1);
        assert(p[0] == t);
    } else if a.len() == 1 {
        assert(p.skip(1) =~= seq![t]);
        assert(join_tokens(p.skip(1)) == t);
        assert(join_tokens(a) == a[0]);
        assert(join_tokens(p) =~= a[0] + seq![SP] + t);
    } else {
        assert(p.skip(1) =~= a.skip(1).push(t));
        lemma_join_push(a.skip(1), t);
        assert(join_tokens(p) == p[0] + seq![SP] + join_tokens(a.skip(1).push(t)));
        assert(join_tokens(p) =~= join_tokens(a) + seq![SP] + t);
    }
}

/// The wire rendering of a header line, without its terminating CRLF:
/// `<name>: <tokens>` for a header with a value, `<name>:` for one without.
pub open spec fn header_bytes(h: HeaderV) -> Seq<u8> {
    match h.value {
        Some(v) => h.name + seq![COLON, SP] + join_tokens(v),
        None => h.name + seq![COLON],
    }
}

/// The wire rendering of a version: `HTTP/<major>.<minor>`.
pub open spec fn version_bytes(v: HttpVersion) -> Seq<u8> {
    seq![72u8, 84u8, 84u8, 80u8, 47u8] + dec_rep(v.major as nat) + seq![46u8] + dec_rep(
        v.minor as nat,
    )
}

impl FieldName {
    /// The name's raw bytes.
    pub fn into_bytes(self) -> (r: Vec<u8>)
        ensures
            r@ == self@,
    {
        self.0
    }
}

impl FieldContent {
    /// The token's raw bytes.
    pub fn into_bytes(self) -> (r: Vec<u8>)
        ensures
            r@ == self@,
    {
        self.0
    }
}

impl FieldValue {
    /// The value's tokens, joined by single spaces.
    pub fn joined(&self) -> (r: Vec<u8>)
        ensures
            r@ == join_tokens(self@),
    {
        let mut out: Vec<u8> = Vec::new();
        let mut i: usize = 0;
        proof {
            assert(self@.take(0) =~= Seq::<Seq<u8>>::empty());
        }
        while i < self.0.len()
            invariant
                i <= self.0@.len(),
                self@.len() == self.0@.len(),
                out@ == join_tokens(self@.take(i as int)),
            decreases self.0@.len() - i,
        {
            if i > 0 {
                out.push(SP);
            }
            let mut tok = crate::lex::clone_bytes(&self.0[i].0);
            out.append(&mut tok);
            proof {
                assert(self@.take(i + 1) =~= self@.take(i as int).push(self@[i as int]));
                lemma_join_push(self@.take(i as int), self@[i as int]);
                assert(self@[i as int] == self.0@[i as int]@);
            }
            i = i + 1;
        }
        proof {
            assert(self@.take(self@.len() as int) =~= self@);
        }
        out
    }

    /// The value's tokens, joined by single spaces.
    pub fn into_bytes(self) -> (r: Vec<u8>)
        ensures
            r@ == join_tokens(self@),
    {
        self.joined()
    }
}

impl MessageHeader {
    /// Pair a name with an optional value.
    pub fn new(field_name: FieldName, field_value: Option<FieldValue>) -> (h: MessageHeader)
        ensures
            h.field_name == field_name,
            h.field_value == field_value,
    {
        MessageHeader { field_name, field_value }
    }

    /// The header's wire rendering, without its terminating CRLF. A header
    /// with no value renders as `<name>:`, with nothing after the colon.
    pub fn to_bytes(&self) -> (r: Vec<u8>)
        ensures
            r@ == header_bytes(self@),
    {
        let mut out = crate::lex::clone_bytes(&self.field_name.0);
        match &self.field_value {
            Some(value) => {
                out.push(COLON);
                out.push(SP);
                let mut rest = value.joined();
                out.append(&mut rest);
                proof {
                    assert(out@ =~= header_bytes(self@));
                }
            },
            None => {
                out.push(COLON);
                proof {
                    assert(out@ =~= header_bytes(self@));
                }
            },
        }
        out
    }

    /// The header's wire rendering, consuming the header.
    pub fn into_bytes(self) -> (r: Vec<u8>)
        ensures
            r@ == header_bytes(self@),
    {
        self.to_bytes()
    }
}

impl MessageBody {
    /// The body's raw bytes.
    pub fn into_bytes(self) -> (r: Vec<u8>)
        ensures
            r@ == self@,
    {
        self.0
    }
}

impl HttpVersion {
    /// The version's wire rendering: `HTTP/<major>.<minor>`.
    pub fn into_bytes(self) -> (r: Vec<u8>)
        ensures
            r@ == version_bytes(self),
    {
        let mut out: Vec<u8> = Vec::new();
        out.push(72);
        out.push(84);
        out.push(84);
        out.push(80);
        out.push(47);
        let mut mj = crate::lex::u64_to_dec(self.major as u64);
        out.append(&mut mj);
        out.push(46);
        let mut mn = crate::lex::u64_to_dec(self.minor as u64);
        out.append(&mut mn);
        proof {
            assert(out@ =~= version_bytes(self));
        }
        out
    }
}

} // verus!
