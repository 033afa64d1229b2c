//! Byte-level helpers shared by the grammar, the router and the serializer:
//! character classes, maximal runs, searching, splitting, whitespace
//! trimming, and decimal numbers.

use vstd::prelude::*;

verus! {

use crate::error::Error;

pub const SP: u8 = 32;
pub const HT: u8 = 9;
pub const CR: u8 = 13;
pub const LF: u8 = 10;
pub const COLON: u8 = 58;
pub const COMMA: u8 = 44;

/// Space or horizontal tab.
pub open spec fn is_spht(c: u8) -> bool {
    c == SP || c == HT
}

/// The whitespace class that delimits tokens: space, tab, CR, LF.
pub open spec fn is_wsp(c: u8) -> bool {
    c == SP || c == HT || c == CR || c == LF
}

pub open spec fn is_alpha(c: u8) -> bool {
    (65 <= c <= 90) || (97 <= c <= 122)
}

pub open spec fn is_digit(c: u8) -> bool {
    48 <= c <= 57
}

/// ASCII lower-casing of a single byte.
pub open spec fn lower(c: u8) -> u8 {
    if 65 <= c <= 90 {
        (c + 32) as u8
    } else {
        c
    }
}

/// The byte classes the scanner knows about.
#[derive(Clone, Copy, Debug)]
pub enum ByteClass {
    Spht,
    NonWsp,
    Alpha,
    Digit,
}

/// The predicate a class stands for.
pub open spec fn class_spec(k: ByteClass) -> spec_fn(u8) -> bool {
    match k {
        ByteClass::Spht => (|c: u8| is_spht(c)),
        ByteClass::NonWsp => (|c: u8| !is_wsp(c)),
        ByteClass::Alpha => (|c: u8| is_alpha(c)),
        ByteClass::Digit => (|c: u8| is_digit(c)),
    }
}

/// Length of the maximal run of bytes satisfying `f`, starting at `i`.
pub open spec fn run_len(s: Seq<u8>, i: int, f: spec_fn(u8) -> bool) -> nat
    decreases s.len() - i,
{
    if i < 0 || i >= s.len() || !f(s[i]) {
        0
    } else {
        1 + run_len(s, i + 1, f)
    }
}

pub proof fn lemma_run_len_bounds(s: Seq<u8>, i: int, f: spec_fn(u8) -> bool)
    requires
        0 <= i <= s.len(),
    ensures
        0 <= run_len(s, i, f) <= s.len() - i,
        forall|j: int| i <= j < i + run_len(s, i, f) ==> f(s[j]),
        i + run_len(s, i, f) < s.len() ==> !f(s[i + run_len(s, i, f)]),
    decreases s.len() - i,
{
    if i < s.len() && f(s[i]) {
        lemma_run_len_bounds(s, i + 1, f);
    }
}

fn in_class(k: ByteClass, c: u8) -> (b: bool)
    ensures
        b == class_spec(k)(c),
{
    match k {
        ByteClass::Spht => c == SP || c == HT,
        ByteClass::NonWsp => !(c == SP || c == HT || c == CR || c == LF),
        ByteClass::Alpha => (65 <= c && c <= 90) || (97 <= c && c <= 122),
        ByteClass::Digit => 48 <= c && c <= 57,
    }
}

/// Length of the maximal run of bytes of class `k` starting at `pos`.
pub fn scan_class(data: &Vec<u8>, pos: usize, k: ByteClass) -> (n: usize)
    requires
        pos <= data@.len(),
    ensures
        n == run_len(data@, pos as int, class_spec(k)),
        pos + n <= data@.len(),
{
    let ghost f = class_spec(k);
    let mut end: usize = pos;
    while end < data.len() && in_class(k, data[end])
        invariant
            pos <= end <= data@.len(),
            f == class_spec(k),
            forall|j: int| pos <= j < end ==> f(data@[j]),
        decreases data@.len() - end,
    {
        end = end + 1;
    }
    proof {
        lemma_run_of_exact(data@, pos as int, (end - pos) as int, f);
    }
    end - pos
}

/// A run of exactly `n` bytes satisfying `f` (and then a byte that does not,
/// or the end of the input) pins down `run_len`.
pub proof fn lemma_run_of_exact(s: Seq<u8>, i: int, n: int, f: spec_fn(u8) -> bool)
    requires
        0 <= i,
        0 <= n,
        i + n <= s.len(),
        forall|j: int| i <= j < i + n ==> f(s[j]),
        i + n < s.len() ==> !f(s[i + n]),
    ensures
        run_len(s, i, f) == n,
    decreases n,
{
    if n > 0 {
        assert(f(s[i]));
        lemma_run_of_exact(s, i + 1, n - 1, f);
    }
}


/// A run read at offset `d` into the suffix of `s` at `i` equals the run
/// read at `i + d` in `s` itself.
pub proof fn lemma_run_shift(s: Seq<u8>, i: int, d: int, k: ByteClass)
    requires
        0 <= i,
        0 <= d,
        i + d <= s.len(),
    ensures
        run_len(s, i + d, class_spec(k)) == run_len(
            s.subrange(i, s.len() as int),
            d,
            class_spec(k),
        ),
{
    let suf = s.subrange(i, s.len() as int);
    let f = class_spec(k);
    lemma_run_len_bounds(s, i + d, f);
    lemma_run_len_bounds(suf, d, f);
    let n = run_len(s, i + d, f) as int;
    assert(forall|t: int| 0 <= t < suf.len() ==> suf[t] == s[i + t]);
    assert(forall|t: int| d <= t < d + n ==> f(#[trigger] suf[t]));
    if d + n < suf.len() {
        assert(!f(suf[d + n]));
    }
    lemma_run_of_exact(suf, d, n, f);
}

/// Index of the first occurrence of `b` at or after `i`, if any.
pub open spec fn find_byte(s: Seq<u8>, i: int, b: u8) -> Option<int>
    decreases s.len() - i,
{
    if i < 0 || i >= s.len() {
        None
    } else if s[i] == b {
        Some(i)
    } else {
        find_byte(s, i + 1, b)
    }
}

pub proof fn lemma_find_byte(s: Seq<u8>, i: int, b: u8)
    requires
        0 <= i <= s.len(),
    ensures
        match find_byte(s, i, b) {
            Some(p) => i <= p < s.len() && s[p] == b && (forall|j: int| i <= j < p ==> s[j] != b),
            None => forall|j: int| i <= j < s.len() ==> s[j] != b,
        },
    decreases s.len() - i,
{
    if i < s.len() && s[i] != b {
        lemma_find_byte(s, i + 1, b);
    }
}

/// First occurrence of `b` at or after `pos`.
pub fn scan_byte(data: &Vec<u8>, pos: usize, b: u8) -> (r: Option<usize>)
    requires
        pos <= data@.len(),
    ensures
        match r {
            Some(p) => pos <= p < data@.len() && find_byte(data@, pos as int, b) == Some(p as int),
            None => find_byte(data@, pos as int, b) is None,
        },
{
    let mut i: usize = pos;
    while i < data.len()
        invariant
            pos <= i <= data@.len(),
            forall|j: int| pos <= j < i ==> data@[j] != b,
        decreases data@.len() - i,
    {
        if data[i] == b {
            proof {
                lemma_find_first_hit(data@, pos as int, i as int, b);
            }
            return Some(i);
        }
        i = i + 1;
    }
    proof {
        lemma_find_no_hit(data@, pos as int, b);
    }
    None
}

proof fn lemma_find_first_hit(s: Seq<u8>, i: int, p: int, b: u8)
    requires
        0 <= i <= p < s.len(),
        s[p] == b,
        forall|j: int| i <= j < p ==> s[j] != b,
    ensures
        find_byte(s, i, b) == Some(p),
    decreases p - i,
{
    if i < p {
        lemma_find_first_hit(s, i + 1, p, b);
    }
}

proof fn lemma_find_no_hit(s: Seq<u8>, i: int, b: u8)
    requires
        0 <= i <= s.len(),
        forall|j: int| i <= j < s.len() ==> s[j] != b,
    ensures
        find_byte(s, i, b) is None,
    decreases s.len() - i,
{
    if i < s.len() {
        lemma_find_no_hit(s, i + 1, b);
    }
}

/// Exact byte equality of two slices.
pub fn bytes_eq(a: &[u8], b: &[u8]) -> (r: bool)
    ensures
        r == (a@ == b@),
{
    if a.len() != b.len() {
        return false;
    }
    let mut i: usize = 0;
    while i < a.len()
        invariant
            i <= a@.len(),
            a@.len() == b@.len(),
            forall|j: int| 0 <= j < i ==> a@[j] == b@[j],
        decreases a@.len() - i,
    {
        if a[i] != b[i] {
            return false;
        }
        i = i + 1;
    }
    proof {
        assert(a@ =~= b@);
    }
    true
}

/// Clone of a byte vector, with its contents pinned down.
pub fn clone_bytes(v: &Vec<u8>) -> (r: Vec<u8>)
    ensures
        r@ == v@,
{
    let r = v.clone();
    proof {
        assert(r@ =~= v@);
    }
    r
}

/// Drop trailing whitespace (space, tab, CR, LF).
pub open spec fn trim_end_ws(s: Seq<u8>) -> Seq<u8>
    decreases s.len(),
{
    if s.len() > 0 && is_wsp(s[s.len() - 1]) {
        trim_end_ws(s.drop_last())
    } else {
        s
    }
}

/// Drop leading whitespace (space, tab, CR, LF).
pub open spec fn trim_start_ws(s: Seq<u8>) -> Seq<u8>
    decreases s.len(),
{
    if s.len() > 0 && is_wsp(s[0]) {
        trim_start_ws(s.skip(1))
    } else {
        s
    }
}

/// Drop whitespace from both ends, the way `trim_ascii` does.
pub open spec fn trim_ws(s: Seq<u8>) -> Seq<u8> {
    trim_start_ws(trim_end_ws(s))
}

/// Copy `data[from..to]` out as a fresh vector.
pub fn copy_range(data: &Vec<u8>, from: usize, to: usize) -> (r: Vec<u8>)
    requires
        from <= to <= data@.len(),
    ensures
        r@ == data@.subrange(from as int, to as int),
{
    let mut out: Vec<u8> = Vec::new();
    let mut i: usize = from;
    while i < to
        invariant
            from <= i <= to <= data@.len(),
            out@ == data@.subrange(from as int, i as int),
        decreases to - i,
    {
        out.push(data[i]);
        proof {
            assert(out@ =~= data@.subrange(from as int, i + 1));
        }
        i = i + 1;
    }
    out
}

pub fn is_ws_byte(c: u8) -> (b: bool)
    ensures
        b == is_wsp(c),
{
    c == SP || c == HT || c == CR || c == LF
}

/// Copy of `data` with whitespace trimmed from the end only.
pub fn trim_end_ws_exec(data: &Vec<u8>) -> (r: Vec<u8>)
    ensures
        r@ == trim_end_ws(data@),
{
    proof {
        assert(data@.subrange(0, data@.len() as int) =~= data@);
    }
    let mut hi: usize = data.len();
    while hi > 0 && is_ws_byte(data[hi - 1])
        invariant
            hi <= data@.len(),
            trim_end_ws(data@) == trim_end_ws(data@.subrange(0, hi as int)),
        decreases hi,
    {
        proof {
            assert(data@.subrange(0, hi as int).drop_last() =~= data@.subrange(0, hi - 1));
        }
        hi = hi - 1;
    }
    proof {
        assert(data@.subrange(0, hi as int).len() == hi);
        assert(trim_end_ws(data@) == data@.subrange(0, hi as int));
    }
    copy_range(data, 0, hi)
}

/// Copy of `data` with whitespace trimmed from both ends.
pub fn trim_ws_exec(data: &Vec<u8>) -> (r: Vec<u8>)
    ensures
        r@ == trim_ws(data@),
{
    proof {
        assert(data@.subrange(0, data@.len() as int) =~= data@);
    }
    let mut hi: usize = data.len();
    while hi > 0 && is_ws_byte(data[hi - 1])
        invariant
            hi <= data@.len(),
            trim_end_ws(data@) == trim_end_ws(data@.subrange(0, hi as int)),
        decreases hi,
    {
        proof {
            assert(data@.subrange(0, hi as int).drop_last() =~= data@.subrange(0, hi - 1));
        }
        hi = hi - 1;
    }
    proof {
        assert(data@.subrange(0, hi as int).len() == hi);
        assert(trim_end_ws(data@) == data@.subrange(0, hi as int));
    }
    let mut lo: usize = 0;
    while lo < hi && is_ws_byte(data[lo])
        invariant
            0 <= lo <= hi <= data@.len(),
            trim_end_ws(data@) == data@.subrange(0, hi as int),
            trim_start_ws(trim_end_ws(data@)) == trim_start_ws(data@.subrange(lo as int, hi as int)),
        decreases hi - lo,
    {
        proof {
            assert(data@.subrange(lo as int, hi as int).skip(1) =~= data@.subrange(lo + 1, hi as int));
        }
        lo = lo + 1;
    }
    proof {
        let part = data@.subrange(lo as int, hi as int);
        assert(part.len() == 0 || !is_wsp(part[0]));
        assert(trim_start_ws(part) == part);
    }
    copy_range(data, lo, hi)
}

/// The numeric value of a sequence of ASCII digits, most significant first.
pub open spec fn dec_val(s: Seq<u8>) -> nat
    decreases s.len(),
{
    if s.len() == 0 {
        0
    } else {
        dec_val(s.drop_last()) * 10 + (if is_digit(s.last()) { (s.last() - 48) as nat } else { 0 })
    }
}

/// The shortest decimal rendering of `n`, as ASCII digits.
pub open spec fn dec_rep(n: nat) -> Seq<u8>
    decreases n,
{
    if n < 10 {
        seq![(48 + n) as u8]
    } else {
        dec_rep(n / 10).push((48 + n % 10) as u8)
    }
}

pub proof fn lemma_dec_rep_digits(n: nat)
    ensures
        dec_rep(n).len() >= 1,
        forall|j: int| 0 <= j < dec_rep(n).len() ==> is_digit(#[trigger] dec_rep(n)[j]),
        dec_val(dec_rep(n)) == n,
    decreases n,
{
    if n < 10 {
        let s0 = seq![(48 + n) as u8];
        assert(dec_rep(n) == s0);
        assert(s0.len() == 1);
        assert(s0.last() == (48 + n) as u8);
        assert(s0.drop_last() =~= Seq::<u8>::empty());
        assert(dec_val(s0.drop_last()) == 0);
        assert(is_digit(s0.last()));
        assert(dec_val(s0) == dec_val(s0.drop_last()) * 10 + ((s0.last() - 48) as nat));
    } else {
        lemma_dec_rep_digits(n / 10);
        assert(dec_rep(n).drop_last() =~= dec_rep(n / 10));
        assert(dec_rep(n).last() == (48 + n % 10) as u8);
        assert(is_digit((48 + n % 10) as u8));
        assert(dec_val(dec_rep(n)) == dec_val(dec_rep(n / 10)) * 10 + n % 10);
        assert(n / 10 * 10 + n % 10 == n);
    }
}

/// The digit part of a number accepted by `u32::from_str`: everything after
/// an optional leading `+`.
pub open spec fn u32_digits_of(s: Seq<u8>) -> Seq<u8> {
    if s.len() > 0 && s[0] == 43 {
        s.skip(1)
    } else {
        s
    }
}

pub open spec fn all_digits(d: Seq<u8>) -> bool {
    forall|j: int| 0 <= j < d.len() ==> is_digit(d[j])
}

/// Whether `s` is what `u32::from_str` accepts: an optional leading `+`,
/// then one or more digits, with a value that fits in 32 bits.
pub open spec fn spec_parse_u32(s: Seq<u8>) -> Option<u32> {
    if u32_digits_of(s).len() >= 1 && all_digits(u32_digits_of(s)) && dec_val(u32_digits_of(s))
        <= u32::MAX {
        Some(dec_val(u32_digits_of(s)) as u32)
    } else {
        None
    }
}

/// Extending a digit string multiplies its value by ten, so a prefix that is
/// already too large can never shrink back into range.
proof fn lemma_dec_val_prefix(s: Seq<u8>, k: int)
    requires
        0 <= k <= s.len(),
    ensures
        dec_val(s.take(k)) <= dec_val(s),
    decreases s.len() - k,
{
    if k < s.len() {
        lemma_dec_val_prefix(s, k + 1);
        let t = s.take(k + 1);
        assert(t.drop_last() =~= s.take(k));
        assert(dec_val(s.take(k)) <= dec_val(t));
    } else {
        assert(s.take(k) =~= s);
    }
}

/// Reads a decimal `u32` from ASCII bytes, the way `str::parse::<u32>` does
/// after a UTF-8 check: an optional `+`, then digits, no other bytes.
pub fn vec_u8_to_u32(i: &Vec<u8>) -> (r: Result<u32, Error>)
    ensures
        match spec_parse_u32(i@) {
            Some(v) => r matches Ok(x) && x == v,
            None => r is Err,
        },
{
    let start: usize = if i.len() > 0 && i[0] == 43 {
        1
    } else {
        0
    };
    let ghost digits = if i@.len() > 0 && i@[0] == 43 {
        i@.skip(1)
    } else {
        i@
    };
    proof {
        assert(digits =~= i@.subrange(start as int, i@.len() as int));
    }
    if i.len() == start {
        return Err(Error::custom_str("empty number"));
    }
    proof {
        assert(digits.take(0) =~= Seq::<u8>::empty());
    }
    let mut acc: u64 = 0;
    let mut k: usize = start;
    while k < i.len()
        invariant
            start <= k <= i@.len(),
            start <= 1,
            start as int == if i@.len() > 0 && i@[0] == 43 { 1int } else { 0int },
            digits == i@.subrange(start as int, i@.len() as int),
            acc == dec_val(digits.take(k - start)),
            acc <= u32::MAX,
            forall|j: int| start <= j < k ==> is_digit(i@[j]),
        decreases i@.len() - k,
    {
        let c = i[k];
        if !(48 <= c && c <= 57) {
            proof {
                assert(i@.skip(1) =~= i@.subrange(1, i@.len() as int));
                assert(i@.subrange(0, i@.len() as int) =~= i@);
                assert(u32_digits_of(i@) == digits);
                assert(digits[k - start] == i@[k as int]);
                assert(!is_digit(digits[k - start]));
                assert(!all_digits(digits));
                assert(spec_parse_u32(i@) is None);
            }
            return Err(Error::custom_str("not a digit"));
        }
        let next: u64 = acc * 10 + ((c - 48) as u64);
        proof {
            assert(digits.take(k - start + 1).drop_last() =~= digits.take(k - start));
            assert(digits.take(k - start + 1).last() == i@[k as int]);
        }
        if next > 0xFFFF_FFFF {
            proof {
                assert(i@.skip(1) =~= i@.subrange(1, i@.len() as int));
                assert(i@.subrange(0, i@.len() as int) =~= i@);
                lemma_dec_val_prefix(digits, k - start + 1);
                assert(dec_val(digits) > u32::MAX);
                assert(spec_parse_u32(i@) is None);
            }
            return Err(Error::custom_str("number too large"));
        }
        acc = next;
        k = k + 1;
    }
    proof {
        assert(i@.skip(1) =~= i@.subrange(1, i@.len() as int));
        assert(i@.subrange(0, i@.len() as int) =~= i@);
        assert(digits.take(i@.len() - start) =~= digits);
        assert(forall|j: int| 0 <= j < digits.len() ==> digits[j] == i@[start + j]
            && is_digit(digits[j]));
    }
    Ok(acc as u32)
}

/// Renders `n` in decimal, most significant digit first.
pub fn u64_to_dec(n: u64) -> (r: Vec<u8>)
    ensures
        r@ == dec_rep(n as nat),
    decreases n,
{
    if n < 10 {
        let mut out: Vec<u8> = Vec::new();
        out.push(48 + (n as u8));
        proof {
            assert(out@ =~= seq![(48 + n) as u8]);
        }
        out
    } else {
        let mut out = u64_to_dec(n / 10);
        out.push(48 + ((n % 10) as u8));
        out
    }
}

/// The pieces of `s` between occurrences of `sep` (the way `slice::split`
/// cuts: `n` separators give `n + 1` pieces, empty pieces included).
pub open spec fn spec_split(s: Seq<u8>, sep: u8) -> Seq<Seq<u8>>
    decreases s.len(),
    via spec_split_decreases
{
    match find_byte(s, 0, sep) {
        None => seq![s],
        Some(p) => seq![s.take(p)] + spec_split(s.skip(p + 1), sep),
    }
}

#[via_fn]
proof fn spec_split_decreases(s: Seq<u8>, sep: u8) {
    lemma_find_byte(s, 0, sep);
}

/// Split `data` on `sep`, as `slice::split` does.
pub fn split_byte(data: &Vec<u8>, sep: u8) -> (r: Vec<Vec<u8>>)
    ensures
        r@.map_values(|p: Vec<u8>| p@) == spec_split(data@, sep),
    decreases data@.len(),
{
    proof {
        lemma_find_byte(data@, 0, sep);
    }
    match scan_byte(data, 0, sep) {
        None => {
            let mut out: Vec<Vec<u8>> = Vec::new();
            out.push(copy_range(data, 0, data.len()));
            proof {
                assert(data@.subrange(0, data@.len() as int) =~= data@);
                assert(out@.map_values(|p: Vec<u8>| p@) =~= seq![data@]);
            }
            out
        },
        Some(p) => {
            let head = copy_range(data, 0, p);
            let dlen = data.len();
            let tail = copy_range(data, p + 1, dlen);
            proof {
                assert(tail@ =~= data@.skip(p + 1));
                assert(head@ =~= data@.take(p as int));
            }
            let mut rest = split_byte(&tail, sep);
            rest.insert(0, head);
            proof {
                assert(rest@.map_values(|q: Vec<u8>| q@) =~= seq![data@.take(p as int)]
                    + spec_split(data@.skip(p + 1), sep));
            }
            rest
        },
    }
}

/// Concatenation of a sequence of byte strings, with nothing between them.
pub open spec fn spec_concat(parts: Seq<Seq<u8>>) -> Seq<u8>
    decreases parts.len(),
{
    if parts.len() == 0 {
        Seq::empty()
    } else {
        parts[0] + spec_concat(parts.skip(1))
    }
}

/// The maximal non-whitespace runs of `s`, in order: how a line splits into
/// whitespace-separated words.
pub open spec fn wsp_tokens(s: Seq<u8>) -> Seq<Seq<u8>>
    decreases s.len(),
    via wsp_tokens_decreases
{
    if s.len() == 0 {
        seq![]
    } else if is_wsp(s[0]) {
        wsp_tokens(s.skip(1))
    } else {
        let n = run_len(s, 0, (|c: u8| !is_wsp(c))) as int;
        seq![s.take(n)] + wsp_tokens(s.skip(n))
    }
}

#[via_fn]
proof fn wsp_tokens_decreases(s: Seq<u8>) {
    if s.len() > 0 && !is_wsp(s[0]) {
        lemma_run_len_bounds(s, 0, (|c: u8| !is_wsp(c)));
        assert((|c: u8| !is_wsp(c))(s[0]));
    }
}

} // verus!
