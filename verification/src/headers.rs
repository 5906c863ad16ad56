//! Header tokenization: turns a raw header block into a map from
//! lower-cased header name to trimmed value text.
//!
//! The block is split on CRLF into lines; each line must carry a
//! colon.  Names are trimmed and ASCII lower-cased, values trimmed.
//! The first occurrence of a name wins.  A block of more than
//! `MAX_HEADER_COUNT` lines is malformed.

use vstd::prelude::*;

use crate::errors::MultipartError;
use crate::scan::{
    eq_bytes, find_subsequence, first_match, lemma_first_match, lower_bytes, lower_spec,
    match_at, trim_bytes, trim_spec,
};

verus! {

/// The bytes of `"\r\n"`.
pub open spec fn crlf() -> Seq<u8> {
    seq![13u8, 10u8]
}

/// The bytes of `"\r\n\r\n"`.
pub open spec fn double_crlf() -> Seq<u8> {
    seq![13u8, 10u8, 13u8, 10u8]
}

/// The most header lines a block may carry before it is rejected as
/// malformed: a guard against pathological input.
pub const MAX_HEADER_COUNT: usize = 10;

/// The CRLF-separated lines of a header block.
pub open spec fn header_lines(s: Seq<u8>) -> Seq<Seq<u8>>
    decreases s.len(),
{
    match first_match(s, crlf()) {
        None => seq![s],
        Some(i) => if 0 <= i && i + 2 <= s.len() {
            seq![s.take(i)] + header_lines(s.skip(i + 2))
        } else {
            seq![s]
        },
    }
}

/// One header line as a pair of lower-cased, trimmed name and trimmed
/// value; a line without a colon is malformed.
pub open spec fn parse_line(l: Seq<u8>) -> Option<(Seq<u8>, Seq<u8>)> {
    match first_match(l, seq![58u8]) {
        None => None,
        Some(i) => if 0 <= i && i + 1 <= l.len() {
            Some((lower_spec(trim_spec(l.take(i))), trim_spec(l.skip(i + 1))))
        } else {
            None
        },
    }
}

/// Is some entry of `m` stored under key `k`?
pub open spec fn map_has_key(m: Seq<(Seq<u8>, Seq<u8>)>, k: Seq<u8>) -> bool {
    exists|i: int| 0 <= i < m.len() && m[i].0 == k
}

/// The value of the first entry of `m` stored under key `k`.
pub open spec fn map_lookup(m: Seq<(Seq<u8>, Seq<u8>)>, k: Seq<u8>) -> Option<Seq<u8>>
    decreases m.len(),
{
    if m.len() == 0 {
        None
    } else if m[0].0 == k {
        Some(m[0].1)
    } else {
        map_lookup(m.drop_first(), k)
    }
}

/// Case-insensitive header lookup: the queried name is lower-cased
/// before it is compared against the stored (lower-cased) names.
pub open spec fn lookup_header(m: Seq<(Seq<u8>, Seq<u8>)>, name: Seq<u8>) -> Option<Seq<u8>> {
    map_lookup(m, lower_spec(name))
}

/// Tokenization of a sequence of header lines, extending `acc`;
/// a later duplicate of a stored name is dropped (first wins).
pub open spec fn parse_lines_from(
    ls: Seq<Seq<u8>>,
    acc: Seq<(Seq<u8>, Seq<u8>)>,
) -> Option<Seq<(Seq<u8>, Seq<u8>)>>
    decreases ls.len(),
{
    if ls.len() == 0 {
        Some(acc)
    } else {
        match parse_line(ls[0]) {
            None => None,
            Some(kv) => parse_lines_from(
                ls.drop_first(),
                if map_has_key(acc, kv.0) {
                    acc
                } else {
                    acc.push(kv)
                },
            ),
        }
    }
}

/// What header tokenization yields for a raw block: the header map,
/// or `None` when the block is malformed.  An empty block is a valid
/// empty map.
pub open spec fn parse_header_block(s: Seq<u8>) -> Option<Seq<(Seq<u8>, Seq<u8>)>> {
    if s.len() == 0 {
        Some(Seq::<(Seq<u8>, Seq<u8>)>::empty())
    } else if header_lines(s).len() > MAX_HEADER_COUNT {
        None
    } else {
        parse_lines_from(header_lines(s), Seq::<(Seq<u8>, Seq<u8>)>::empty())
    }
}

/// Mapping from lower-cased header name to raw value text, in order
/// of first appearance.
pub struct HeaderMap {
    entries: Vec<(Vec<u8>, Vec<u8>)>,
}

impl View for HeaderMap {
    type V = Seq<(Seq<u8>, Seq<u8>)>;

    closed spec fn view(&self) -> Seq<(Seq<u8>, Seq<u8>)> {
        self.entries@.map(|i: int, e: (Vec<u8>, Vec<u8>)| (e.0@, e.1@))
    }
}

impl HeaderMap {
    /// An empty map.
    pub fn new() -> (r: HeaderMap)
        ensures
            r@ == Seq::<(Seq<u8>, Seq<u8>)>::empty(),
    {
        let r = HeaderMap { entries: Vec::new() };
        proof {
            assert(r@ =~= Seq::<(Seq<u8>, Seq<u8>)>::empty());
        }
        r
    }

    /// How many headers are stored.
    pub fn len(&self) -> (r: usize)
        ensures
            r == self@.len(),
    {
        self.entries.len()
    }

    fn has_key(&self, k: &[u8]) -> (r: bool)
        ensures
            r == map_has_key(self@, k@),
    {
        let n = self.entries.len();
        let mut i: usize = 0;
        while i < n
            invariant
                n == self.entries@.len(),
                0 <= i <= n,
                forall|j: int| 0 <= j < i ==> self@[j].0 != k@,
            decreases n - i,
        {
            if eq_bytes(self.entries[i].0.as_slice(), k) {
                assert(self@[i as int].0 == k@);
                return true;
            }
            i += 1;
        }
        false
    }

    fn push_entry(&mut self, k: Vec<u8>, v: Vec<u8>)
        ensures
            final(self)@ == old(self)@.push((k@, v@)),
    {
        let ghost kv = (k@, v@);
        self.entries.push((k, v));
        proof {
            assert(self@ =~= old(self)@.push(kv));
        }
    }

    /// The value stored under `name`, compared case-insensitively;
    /// `None` when no header of that name is present.
    pub fn get(&self, name: &[u8]) -> (r: Option<Vec<u8>>)
        ensures
            match r {
                Some(v) => lookup_header(self@, name@) == Some(v@),
                None => lookup_header(self@, name@) is None,
            },
    {
        let key = lower_bytes(name);
        let n = self.entries.len();
        proof {
            assert(self@.skip(0) =~= self@);
        }
        let mut i: usize = 0;
        while i < n
            invariant
                key@ == lower_spec(name@),
                n == self.entries@.len(),
                0 <= i <= n,
                map_lookup(self@, key@) == map_lookup(self@.skip(i as int), key@),
            decreases n - i,
        {
            proof {
                assert(self@.skip(i as int)[0] == self@[i as int]);
            }
            if eq_bytes(self.entries[i].0.as_slice(), key.as_slice()) {
                return Some(vstd::slice::slice_to_vec(self.entries[i].1.as_slice()));
            }
            proof {
                assert(self@.skip(i as int).drop_first() =~= self@.skip(i + 1));
            }
            i += 1;
        }
        proof {
            assert(self@.skip(n as int) =~= Seq::<(Seq<u8>, Seq<u8>)>::empty());
        }
        None
    }
}

pub(crate) fn crlf_vec() -> (r: Vec<u8>)
    ensures
        r@ == crlf(),
{
    let mut v: Vec<u8> = Vec::new();
    v.push(13);
    v.push(10);
    proof {
        assert(v@ =~= crlf());
    }
    v
}

pub(crate) fn double_crlf_vec() -> (r: Vec<u8>)
    ensures
        r@ == double_crlf(),
{
    let mut v: Vec<u8> = Vec::new();
    v.push(13);
    v.push(10);
    v.push(13);
    v.push(10);
    proof {
        assert(v@ =~= double_crlf());
    }
    v
}

fn split_lines(block: &[u8], cr: &Vec<u8>) -> (r: Vec<Vec<u8>>)
    requires
        cr@ == crlf(),
    ensures
        r@.map(|i: int, v: Vec<u8>| v@) == header_lines(block@),
    decreases block@.len(),
{
    match find_subsequence(block, cr.as_slice()) {
        None => {
            let mut r: Vec<Vec<u8>> = Vec::new();
            r.push(vstd::slice::slice_to_vec(block));
            proof {
                assert(r@.map(|i: int, v: Vec<u8>| v@) =~= seq![block@]);
            }
            r
        },
        Some(i) => {
            let blen = block.len();
            proof {
                lemma_first_match(block@, crlf());
                assert(match_at(block@, crlf(), i as int));
                assert(i + 2 <= blen);
            }
            let line = vstd::slice::slice_to_vec(vstd::slice::slice_subrange(block, 0, i));
            let tail = vstd::slice::slice_subrange(block, i + 2, blen);
            let mut r = split_lines(tail, cr);
            r.insert(0, line);
            proof {
                assert(block@.subrange(0, i as int) =~= block@.take(i as int));
                assert(block@.subrange(i + 2, blen as int) =~= block@.skip(i + 2));
                assert(r@.map(|k: int, v: Vec<u8>| v@) =~= seq![block@.take(i as int)]
                    + header_lines(block@.skip(i + 2)));
            }
            r
        },
    }
}

fn parse_line_exec(line: &[u8], colon: &Vec<u8>) -> (r: Option<(Vec<u8>, Vec<u8>)>)
    requires
        colon@ == seq![58u8],
    ensures
        match r {
            Some(kv) => parse_line(line@) == Some((kv.0@, kv.1@)),
            None => parse_line(line@) is None,
        },
{
    match find_subsequence(line, colon.as_slice()) {
        None => None,
        Some(i) => {
            let llen = line.len();
            proof {
                lemma_first_match(line@, seq![58u8]);
                assert(match_at(line@, seq![58u8], i as int));
                assert(i + 1 <= llen);
            }
            let name = lower_bytes(trim_bytes(vstd::slice::slice_subrange(line, 0, i)).as_slice());
            let value = trim_bytes(vstd::slice::slice_subrange(line, i + 1, llen));
            proof {
                assert(line@.subrange(0, i as int) =~= line@.take(i as int));
                assert(line@.subrange(i + 1, llen as int) =~= line@.skip(i + 1));
            }
            Some((name, value))
        },
    }
}

/// Tokenize a raw header block (the bytes between the delimiter line
/// and the blank line, exclusive).  Yields the header map, or
/// `MalformedHeaderBlock` when a line lacks a colon or the block
/// holds more than `MAX_HEADER_COUNT` lines.
pub fn parse_headers(block: &[u8]) -> (r: Result<HeaderMap, MultipartError>)
    ensures
        match r {
            Ok(hm) => parse_header_block(block@) == Some(hm@),
            Err(e) => parse_header_block(block@) is None && e
                == MultipartError::MalformedHeaderBlock,
        },
        block@.len() > 0 && header_lines(block@).len() > MAX_HEADER_COUNT ==> r is Err,
{
    if block.len() == 0 {
        return Ok(HeaderMap::new());
    }
    let cr = crlf_vec();
    let lines = split_lines(block, &cr);
    let ghost ls = lines@.map(|i: int, v: Vec<u8>| v@);
    if lines.len() > MAX_HEADER_COUNT {
        return Err(MultipartError::MalformedHeaderBlock);
    }
    let mut colon: Vec<u8> = Vec::new();
    colon.push(58);
    proof {
        assert(colon@ =~= seq![58u8]);
    }
    let n = lines.len();
    let mut hm = HeaderMap::new();
    proof {
        assert(ls.skip(0) =~= ls);
    }
    let mut k: usize = 0;
    while k < n
        invariant
            colon@ == seq![58u8],
            n == lines@.len(),
            ls == lines@.map(|i: int, v: Vec<u8>| v@),
            ls == header_lines(block@),
            block@.len() > 0,
            ls.len() <= MAX_HEADER_COUNT,
            0 <= k <= n,
            parse_lines_from(ls, Seq::<(Seq<u8>, Seq<u8>)>::empty()) == parse_lines_from(
                ls.skip(k as int),
                hm@,
            ),
        decreases n - k,
    {
        proof {
            assert(ls.skip(k as int)[0] == ls[k as int]);
            assert(ls[k as int] == lines@[k as int]@);
        }
        match parse_line_exec(lines[k].as_slice(), &colon) {
            None => {
                proof {
                    assert(parse_lines_from(ls.skip(k as int), hm@) is None);
                }
                return Err(MultipartError::MalformedHeaderBlock);
            },
            Some((name, value)) => {
                let ghost kv = (name@, value@);
                if !hm.has_key(name.as_slice()) {
                    hm.push_entry(name, value);
                }
                proof {
                    assert(ls.skip(k as int).drop_first() =~= ls.skip(k + 1));
                }
            },
        }
        k += 1;
    }
    proof {
        assert(ls.skip(n as int).len() == 0);
    }
    Ok(hm)
}

} // verus!
