//! A header map with insertion order and unique names, kept in an ordered
//! map from the `indexmap` crate behind trusted wrappers: re-inserting a
//! name overwrites its value in place, a new name goes last. The map reads
//! and writes a block of `name: value` lines.

use vstd::prelude::*;

verus! {

use crate::lex::{spec_split, split_byte, trim_ws, trim_ws_exec, COLON, CR, LF, SP};
use crate::line::{read_until_crlf, spec_read_line};

#[verifier::external_type_specification]
#[verifier::external_body]
#[verifier::reject_recursive_types(K)]
#[verifier::reject_recursive_types(V)]
#[verifier::reject_recursive_types(S)]
pub struct ExIndexMap<K, V, S>(indexmap::IndexMap<K, V, S>);

/// What an index map holds: its entries, in insertion order.
pub uninterp spec fn index_map_entries(
    m: indexmap::IndexMap<Vec<u8>, Vec<u8>, std::collections::hash_map::RandomState>,
) -> Seq<(Seq<u8>, Seq<u8>)>;

/// The first position holding key `k`, if any.
pub open spec fn first_key_index(ps: Seq<(Seq<u8>, Seq<u8>)>, k: Seq<u8>) -> Option<int>
    decreases ps.len(),
{
    if ps.len() == 0 {
        None
    } else if ps[0].0 == k {
        Some(0int)
    } else {
        match first_key_index(ps.skip(1), k) {
            Some(i) => Some(i + 1),
            None => None,
        }
    }
}

/// Insert-or-replace: an existing key keeps its position and takes the new
/// value; a new key is appended.
pub open spec fn spec_pairs_insert(
    ps: Seq<(Seq<u8>, Seq<u8>)>,
    k: Seq<u8>,
    v: Seq<u8>,
) -> Seq<(Seq<u8>, Seq<u8>)> {
    match first_key_index(ps, k) {
        Some(i) => ps.update(i, (k, v)),
        None => ps.push((k, v)),
    }
}

/// Relies on indexmap's `IndexMap::new`: a new map has no entries.
#[verifier::external_body]
fn imap_new() -> (m: indexmap::IndexMap<Vec<u8>, Vec<u8>, std::collections::hash_map::RandomState>)
    ensures
        index_map_entries(m) == Seq::<(Seq<u8>, Seq<u8>)>::empty(),
{
    indexmap::IndexMap::new()
}

/// Relies on indexmap's `IndexMap::insert`: an existing key keeps its place
/// in the order and its value is updated; a new key is inserted last.
#[verifier::external_body]
fn imap_insert(
    m: &mut indexmap::IndexMap<Vec<u8>, Vec<u8>, std::collections::hash_map::RandomState>,
    k: Vec<u8>,
    v: Vec<u8>,
)
    ensures
        index_map_entries(*final(m)) == spec_pairs_insert(index_map_entries(*old(m)), k@, v@),
{
    m.insert(k, v);
}

/// Relies on indexmap's `IndexMap::iter`: entries come back in order.
#[verifier::external_body]
fn imap_entries(
    m: &indexmap::IndexMap<Vec<u8>, Vec<u8>, std::collections::hash_map::RandomState>,
) -> (r: Vec<(Vec<u8>, Vec<u8>)>)
    ensures
        r@.map_values(|p: (Vec<u8>, Vec<u8>)| (p.0@, p.1@)) == index_map_entries(*m),
{
    let mut out: Vec<(Vec<u8>, Vec<u8>)> = Vec::new();
    for (k, v) in m.iter() {
        out.push((k.clone(), v.clone()));
    }
    out
}

/// The pieces of a line that matter: each piece between colons, trimmed,
/// with empty pieces dropped.
pub open spec fn nonempty_trimmed(parts: Seq<Seq<u8>>) -> Seq<Seq<u8>>
    decreases parts.len(),
{
    if parts.len() == 0 {
        seq![]
    } else {
        let t = trim_ws(parts[0]);
        (if t.len() > 0 {
            seq![t]
        } else {
            seq![]
        }) + nonempty_trimmed(parts.skip(1))
    }
}

/// The key/value pair a line contributes: the first two non-empty trimmed
/// pieces around colons; a missing value reads as empty; a line with no
/// usable key contributes nothing.
pub open spec fn line_pair(line: Seq<u8>) -> Option<(Seq<u8>, Seq<u8>)> {
    let fs = nonempty_trimmed(spec_split(line, COLON));
    if fs.len() == 0 {
        None
    } else {
        Some(
            (
                fs[0],
                if fs.len() >= 2 {
                    fs[1]
                } else {
                    Seq::empty()
                },
            ),
        )
    }
}

/// The entries a block of lines yields, folded over `spec_pairs_insert`
/// from `acc`: one line per CRLF, stopping at an empty line or the end of
/// the input.
pub open spec fn spec_header_fields(
    s: Seq<u8>,
    i: int,
    acc: Seq<(Seq<u8>, Seq<u8>)>,
) -> Seq<(Seq<u8>, Seq<u8>)>
    decreases s.len() - i,
    when 0 <= i <= s.len()
    via spec_header_fields_decreases
{
    let (o, e) = spec_read_line(s, i);
    match o {
        None => acc,
        Some(line) => match line_pair(line) {
            None => spec_header_fields(s, e, acc),
            Some((k, v)) => spec_header_fields(s, e, spec_pairs_insert(acc, k, v)),
        },
    }
}

#[via_fn]
proof fn spec_header_fields_decreases(s: Seq<u8>, i: int, acc: Seq<(Seq<u8>, Seq<u8>)>) {
    crate::line::lemma_chunks_end_bounds(s, i);
}

/// A block of header fields, in insertion order, one value per name.
#[derive(Debug)]
pub struct HeaderMap {
    pub data: indexmap::IndexMap<Vec<u8>, Vec<u8>, std::collections::hash_map::RandomState>,
}

impl View for HeaderMap {
    type V = Seq<(Seq<u8>, Seq<u8>)>;

    open spec fn view(&self) -> Seq<(Seq<u8>, Seq<u8>)> {
        index_map_entries(self.data)
    }
}

/// Trimmed, non-empty pieces of `parts` from `idx` on.
fn filter_trim(parts: &Vec<Vec<u8>>, idx: usize) -> (r: Vec<Vec<u8>>)
    requires
        idx <= parts@.len(),
    ensures
        r@.map_values(|p: Vec<u8>| p@) == nonempty_trimmed(
            parts@.map_values(|p: Vec<u8>| p@).skip(idx as int),
        ),
    decreases parts@.len() - idx,
{
    let ghost ps = parts@.map_values(|p: Vec<u8>| p@);
    if idx == parts.len() {
        let r: Vec<Vec<u8>> = Vec::new();
        proof {
            assert(ps.skip(idx as int) =~= Seq::<Seq<u8>>::empty());
            assert(r@.map_values(|p: Vec<u8>| p@) =~= nonempty_trimmed(ps.skip(idx as int)));
        }
        r
    } else {
        let t = trim_ws_exec(&parts[idx]);
        let mut rest = filter_trim(parts, idx + 1);
        proof {
            assert(ps.skip(idx as int)[0] == ps[idx as int]);
            assert(ps.skip(idx as int).skip(1) =~= ps.skip(idx + 1));
        }
        if t.len() > 0 {
            rest.insert(0, t);
            proof {
                assert(rest@.map_values(|p: Vec<u8>| p@) =~= seq![trim_ws(ps[idx as int])]
                    + nonempty_trimmed(ps.skip(idx + 1)));
            }
            rest
        } else {
            rest
        }
    }
}

/// The rendering of the entries: one `name: value` line per entry, each
/// ended by CRLF, in order.
pub open spec fn fields_bytes(ps: Seq<(Seq<u8>, Seq<u8>)>) -> Seq<u8>
    decreases ps.len(),
{
    if ps.len() == 0 {
        Seq::empty()
    } else {
        ps[0].0 + seq![COLON, SP] + ps[0].1 + seq![CR, LF] + fields_bytes(ps.skip(1))
    }
}

proof fn lemma_fields_bytes_push(ps: Seq<(Seq<u8>, Seq<u8>)>, p: (Seq<u8>, Seq<u8>))
    ensures
        fields_bytes(ps.push(p)) == fields_bytes(ps) + p.0 + seq![COLON, SP] + p.1 + seq![CR, LF],
    decreases ps.len(),
{
    let w = ps.push(p);
    if ps.len() == 0 {
        assert(w.skip(1) =~= Seq::<(Seq<u8>, Seq<u8>)>::empty());
        assert(fields_bytes(Seq::<(Seq<u8>, Seq<u8>)>::empty()) == Seq::<u8>::empty());
        assert(w[0] == p);
        assert(fields_bytes(w) =~= fields_bytes(ps) + p.0 + seq![COLON, SP] + p.1 + seq![CR, LF]);
    } else {
        assert(w.skip(1) =~= ps.skip(1).push(p));
        lemma_fields_bytes_push(ps.skip(1), p);
        assert(fields_bytes(w) =~= fields_bytes(ps) + p.0 + seq![COLON, SP] + p.1 + seq![CR, LF]);
    }
}

impl HeaderMap {
    /// An empty map.
    pub fn new() -> (h: HeaderMap)
        ensures
            h@ == Seq::<(Seq<u8>, Seq<u8>)>::empty(),
    {
        HeaderMap { data: imap_new() }
    }

    /// Set `name` to `value`: in place if the name exists, appended if not.
    pub fn insert(&mut self, name: Vec<u8>, value: Vec<u8>)
        ensures
            final(self)@ == spec_pairs_insert(old(self)@, name@, value@),
    {
        imap_insert(&mut self.data, name, value);
    }

    /// The entries, in order.
    pub fn entries(&self) -> (r: Vec<(Vec<u8>, Vec<u8>)>)
        ensures
            r@.map_values(|p: (Vec<u8>, Vec<u8>)| (p.0@, p.1@)) == self@,
    {
        imap_entries(&self.data)
    }

    /// Read a block of `name: value` lines: each line until an empty line
    /// or the end of the input contributes its key and value; a repeated
    /// name keeps its place and takes the later value.
    pub fn from_bytes(data: &Vec<u8>) -> (h: HeaderMap)
        ensures
            h@ == spec_header_fields(data@, 0, Seq::<(Seq<u8>, Seq<u8>)>::empty()),
    {
        let mut h = HeaderMap::new();
        let mut pos: usize = 0;
        loop
            invariant
                pos <= data@.len(),
                spec_header_fields(data@, 0, Seq::<(Seq<u8>, Seq<u8>)>::empty())
                    == spec_header_fields(data@, pos as int, h@),
            decreases data@.len() - pos,
        {
            let (line_opt, e) = read_until_crlf(data, pos);
            match line_opt {
                None => {
                    return h;
                },
                Some(line) => {
                    let ghost before = h@;
                    let parts = split_byte(&line, COLON);
                    let fs = filter_trim(&parts, 0);
                    proof {
                        assert(parts@.map_values(|p: Vec<u8>| p@).skip(0) =~= parts@.map_values(
                            |p: Vec<u8>| p@,
                        ));
                    }
                    if fs.len() > 0 {
                        let key = crate::lex::clone_bytes(&fs[0]);
                        let value = if fs.len() >= 2 {
                            crate::lex::clone_bytes(&fs[1])
                        } else {
                            Vec::new()
                        };
                        h.insert(key, value);
                    }
                    proof {
                        if e as int <= pos as int {
                            assert(false);
                        }
                    }
                    pos = e;
                },
            }
        }
    }

    /// The whole block's rendering: each entry as `name: value` ended by
    /// CRLF, in order.
    pub fn to_bytes(&self) -> (r: Vec<u8>)
        ensures
            r@ == fields_bytes(self@),
    {
        let entries = self.entries();
        let ghost ps = entries@.map_values(|p: (Vec<u8>, Vec<u8>)| (p.0@, p.1@));
        let mut out: Vec<u8> = Vec::new();
        let mut i: usize = 0;
        proof {
            assert(ps.take(0) =~= Seq::<(Seq<u8>, Seq<u8>)>::empty());
            assert(out@ =~= fields_bytes(ps.take(0)));
        }
        while i < entries.len()
            invariant
                i <= entries@.len(),
                ps == entries@.map_values(|p: (Vec<u8>, Vec<u8>)| (p.0@, p.1@)),
                ps.len() == entries@.len(),
                ps == self@,
                out@ == fields_bytes(ps.take(i as int)),
            decreases entries@.len() - i,
        {
            let mut name = crate::lex::clone_bytes(&entries[i].0);
            out.append(&mut name);
            out.push(COLON);
            out.push(SP);
            let mut value = crate::lex::clone_bytes(&entries[i].1);
            out.append(&mut value);
            out.push(CR);
            out.push(LF);
            proof {
                assert(ps.take(i + 1) =~= ps.take(i as int).push(ps[i as int]));
                lemma_fields_bytes_push(ps.take(i as int), ps[i as int]);
                assert(out@ =~= fields_bytes(ps.take(i + 1)));
            }
            i = i + 1;
        }
        proof {
            assert(ps.take(ps.len() as int) =~= ps);
        }
        out
    }
}

} // verus!
