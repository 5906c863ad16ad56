//! The decoder's general guarantees, stated and proved over the same
//! spec functions its contracts use.

use vstd::prelude::*;

use crate::boundary::{
    boundary_key, ci_has_prefix, dash_dash, extract_boundary, multipart_prefix,
    scan_boundary_param, seg_boundary_value,
};
use crate::headers::{
    crlf, double_crlf, header_lines, lookup_header, parse_header_block, MAX_HEADER_COUNT,
};
use crate::parser::{
    marker_of, spec_advance, spec_feed, spec_move, spec_read, spec_read_len, step_preamble,
    ParserModel, ParserState,
};
use crate::scan::{
    first_match, is_ws, lemma_first_match, lemma_first_match_bound, lemma_first_match_unique,
    lower_spec, match_at, strip_quotes_spec, trim_end_spec, trim_spec, trim_start_spec,
};

verus! {

/// Trimming leaves a text alone when neither end is whitespace.
pub proof fn lemma_trim_noop(s: Seq<u8>)
    requires
        s.len() > 0,
        !is_ws(s[0]),
        !is_ws(s[s.len() - 1]),
    ensures
        trim_spec(s) == s,
{
}

/// Stripping the quotes that quoting added restores the text exactly,
/// whatever the text.
pub proof fn lemma_strip_quotes_roundtrip(t: Seq<u8>)
    ensures
        strip_quotes_spec(seq![34u8] + t + seq![34u8]) == t,
{
    let q = seq![34u8] + t + seq![34u8];
    assert(q[0] == 34u8);
    assert(q[q.len() - 1] == 34u8);
    assert(q.subrange(1, q.len() - 1) =~= t);
}

/// Construction is deterministic: a quoted and an unquoted boundary
/// parameter carrying identical text yield the identical boundary
/// value, hence identical delimiter bytes.  The text must be a
/// plausible boundary token: non-empty, not whitespace-trimmed away
/// at either end, and not itself wearing surrounding quotes.
pub proof fn lemma_boundary_quoting(t: Seq<u8>)
    requires
        t.len() > 0,
        !is_ws(t[0]),
        !is_ws(t[t.len() - 1]),
        !(t[0] == 34 && t[t.len() - 1] == 34),
    ensures
        seg_boundary_value(boundary_key() + seq![61u8] + t) == Some(t),
        seg_boundary_value(boundary_key() + seq![61u8] + (seq![34u8] + t + seq![34u8])) == Some(t),
{
    lemma_boundary_param_value(t);
    lemma_boundary_param_value(seq![34u8] + t + seq![34u8]);
    assert((seq![34u8] + t + seq![34u8])[0] == 34u8);
    assert((seq![34u8] + t + seq![34u8]).len() == t.len() + 2);
    lemma_strip_quotes_roundtrip(t);
}

/// A `boundary=` parameter segment around any value `v` that trimming
/// leaves alone parses to `Some` of `v` unquoted.
proof fn lemma_boundary_param_value(v: Seq<u8>)
    requires
        v.len() > 0,
        !is_ws(v[0]),
        !is_ws(v[v.len() - 1]),
    ensures
        seg_boundary_value(boundary_key() + seq![61u8] + v) == Some(strip_quotes_spec(v)),
{
    let bk = boundary_key();
    let s = bk + seq![61u8] + v;
    assert(bk[0] == 98u8);
    assert(bk[1] == 111u8);
    assert(bk[2] == 117u8);
    assert(bk[3] == 110u8);
    assert(bk[4] == 100u8);
    assert(bk[5] == 97u8);
    assert(bk[6] == 114u8);
    assert(bk[7] == 121u8);
    assert(s.len() == 9 + v.len());
    assert(s[0] == 98u8);
    assert(s[s.len() - 1] == v[v.len() - 1]);
    lemma_trim_noop(s);
    assert(s[8] == 61u8);
    assert(match_at(s, seq![61u8], 8)) by {
        assert(s.subrange(8, 9) =~= seq![61u8]);
    }
    assert forall|j: int| 0 <= j < 8 implies !match_at(s, seq![61u8], j) by {
        if match_at(s, seq![61u8], j) {
            assert(s.subrange(j, j + 1)[0] == s[j]);
            assert(s[j] == bk[j]);
        }
    }
    lemma_first_match_unique(s, seq![61u8], 8);
    assert(s.take(8) =~= bk);
    lemma_trim_noop(bk);
    assert(lower_spec(bk) =~= bk);
    assert(s.skip(9) =~= v);
    lemma_trim_noop(v);
}

/// The bytes of `"multipart/form-data; boundary="`.
pub open spec fn form_data_boundary_prefix() -> Seq<u8> {
    seq![
        109u8, 117u8, 108u8, 116u8, 105u8, 112u8, 97u8, 114u8, 116u8, 47u8, 102u8, 111u8, 114u8,
        109u8, 45u8, 100u8, 97u8, 116u8, 97u8, 59u8, 32u8, 98u8, 111u8, 117u8, 110u8, 100u8,
        97u8, 114u8, 121u8, 61u8,
    ]
}

/// Boundary extraction from a whole `multipart/form-data` content
/// type around a value `v` that trimming leaves alone: the delimiter
/// is `"--"` plus `v` unquoted.
proof fn lemma_extract_form_data(v: Seq<u8>)
    requires
        v.len() > 0,
        !is_ws(v[0]),
        !is_ws(v[v.len() - 1]),
        forall|j: int| 0 <= j < v.len() ==> v[j] != 59,
    ensures
        extract_boundary(form_data_boundary_prefix() + v) == (if strip_quotes_spec(v).len() == 0 {
            Err::<Seq<u8>, crate::errors::MultipartError>(
                crate::errors::MultipartError::MissingBoundary,
            )
        } else {
            Ok::<Seq<u8>, crate::errors::MultipartError>(dash_dash() + strip_quotes_spec(v))
        }),
{
    let p = form_data_boundary_prefix();
    let ct = p + v;
    assert(p[0] == 109);
    assert(p[1] == 117);
    assert(p[2] == 108);
    assert(p[3] == 116);
    assert(p[4] == 105);
    assert(p[5] == 112);
    assert(p[6] == 97);
    assert(p[7] == 114);
    assert(p[8] == 116);
    assert(p[9] == 47);
    assert(p[10] == 102);
    assert(p[11] == 111);
    assert(p[12] == 114);
    assert(p[13] == 109);
    assert(p[14] == 45);
    assert(p[15] == 100);
    assert(p[16] == 97);
    assert(p[17] == 116);
    assert(p[18] == 97);
    assert(p[19] == 59);
    assert(p[20] == 32);
    assert(p[21] == 98);
    assert(p[22] == 111);
    assert(p[23] == 117);
    assert(p[24] == 110);
    assert(p[25] == 100);
    assert(p[26] == 97);
    assert(p[27] == 114);
    assert(p[28] == 121);
    assert(p[29] == 61);
    // The content type begins with "multipart/", already lower-case.
    assert(ci_has_prefix(ct, multipart_prefix())) by {
        assert forall|j: int| 0 <= j < 10 implies lower_spec(ct.take(10))[j]
            == multipart_prefix()[j] by {
            assert(ct.take(10)[j] == p[j]);
        }
        assert(lower_spec(ct.take(10)) =~= multipart_prefix());
    }
    // The first ';' of the content type sits right after "form-data".
    assert(match_at(ct, seq![59u8], 19)) by {
        assert(ct[19] == p[19]);
        assert(ct.subrange(19, 20) =~= seq![59u8]);
    }
    assert forall|j: int| 0 <= j < 19 implies !match_at(ct, seq![59u8], j) by {
        if match_at(ct, seq![59u8], j) {
            assert(ct.subrange(j, j + 1)[0] == ct[j]);
            assert(ct[j] == p[j]);
        }
    }
    lemma_first_match_unique(ct, seq![59u8], 19);
    // The media-type segment before it carries no '=': no parameter.
    let seg0 = ct.take(19);
    assert(seg0 =~= p.take(19));
    assert(seg0.len() == 19);
    assert(!is_ws(seg0[0]) && !is_ws(seg0[18]));
    lemma_trim_noop(seg0);
    lemma_first_match(seg0, seq![61u8]);
    assert(seg_boundary_value(seg0) is None) by {
        match first_match(seg0, seq![61u8]) {
            None => {},
            Some(i) => {
                assert(seg0.subrange(i, i + 1)[0] == seg0[i]);
                assert(seg0[i] == p[i]);
            },
        }
    }
    // Scanning moves on to the boundary parameter segment.
    let rest = ct.skip(20);
    let bseg = boundary_key() + seq![61u8] + v;
    assert(rest =~= seq![32u8] + bseg);
    assert(scan_boundary_param(ct) == scan_boundary_param(rest));
    // That segment holds no further ';'.
    assert(bseg.len() == 9 + v.len());
    lemma_first_match(rest, seq![59u8]);
    assert(first_match(rest, seq![59u8]) is None) by {
        match first_match(rest, seq![59u8]) {
            None => {},
            Some(i) => {
                assert(rest.subrange(i, i + 1)[0] == rest[i]);
                assert(boundary_key()[0] == 98);
                assert(boundary_key()[1] == 111);
                assert(boundary_key()[2] == 117);
                assert(boundary_key()[3] == 110);
                assert(boundary_key()[4] == 100);
                assert(boundary_key()[5] == 97);
                assert(boundary_key()[6] == 114);
                assert(boundary_key()[7] == 121);
                if i == 0 {
                    assert(rest[0] == 32);
                } else if i <= 9 {
                    assert(rest[i] == bseg[i - 1]);
                } else {
                    assert(rest[i] == v[i - 10]);
                }
            },
        }
    }
    assert(scan_boundary_param(rest) == seg_boundary_value(rest));
    // One leading space trims away; the rest is the bare parameter.
    assert(trim_spec(rest) == bseg) by {
        assert(rest[0] == 32);
        assert(is_ws(rest[0]));
        assert(trim_start_spec(rest) == trim_start_spec(rest.skip(1)));
        assert(rest.skip(1) =~= bseg);
        assert(bseg[0] == 98);
        assert(trim_start_spec(bseg) == bseg);
        assert(bseg[bseg.len() - 1] == v[v.len() - 1]);
        assert(trim_end_spec(bseg) == bseg);
    }
    lemma_boundary_param_value(v);
    assert(trim_spec(bseg) == bseg) by {
        assert(bseg[0] == 98);
        assert(bseg[bseg.len() - 1] == v[v.len() - 1]);
        lemma_trim_noop(bseg);
    }
    assert(seg_boundary_value(rest) == seg_boundary_value(bseg));
}

/// Construction is deterministic end to end: a full
/// `multipart/form-data` content type with the boundary value quoted
/// and one with it bare, carrying identical token text, construct the
/// identical delimiter bytes `"--" + token`.
pub proof fn lemma_construction_deterministic(t: Seq<u8>)
    requires
        t.len() > 0,
        !is_ws(t[0]),
        !is_ws(t[t.len() - 1]),
        !(t[0] == 34 && t[t.len() - 1] == 34),
        forall|j: int| 0 <= j < t.len() ==> t[j] != 59,
    ensures
        extract_boundary(form_data_boundary_prefix() + t) == Ok::<Seq<u8>,
            crate::errors::MultipartError,
        >(dash_dash() + t),
        extract_boundary(form_data_boundary_prefix() + (seq![34u8] + t + seq![34u8]))
            == Ok::<Seq<u8>, crate::errors::MultipartError>(dash_dash() + t),
{
    lemma_extract_form_data(t);
    let q = seq![34u8] + t + seq![34u8];
    assert(q[0] == 34u8 && q[q.len() - 1] == 34u8);
    assert(forall|j: int| 0 <= j < q.len() ==> q[j] != 59) by {
        assert forall|j: int| 0 <= j < q.len() implies q[j] != 59 by {
            if 1 <= j < q.len() - 1 {
                assert(q[j] == t[j - 1]);
            }
        }
    }
    lemma_extract_form_data(q);
    lemma_strip_quotes_roundtrip(t);
}

/// Chunking invariance at the input edge: feeding one chunk and then
/// another leaves the parser exactly as feeding their concatenation
/// does.  Since every other operation is a function of the parser
/// model alone, where the input is split can never change what the
/// parser produces.
pub proof fn lemma_feed_chunking(m: ParserModel, a: Seq<u8>, b: Seq<u8>)
    ensures
        spec_feed(spec_feed(m, a), b) == spec_feed(m, a + b),
{
    if m.state != ParserState::Done {
        assert((m.buffer + a) + b =~= m.buffer + (a + b));
        assert(spec_feed(spec_feed(m, a), b) =~~= spec_feed(m, a + b));
    }
}

/// Delimiter-split safety: while no delimiter occurrence is buffered,
/// every occurrence in the stream as later extended lies strictly
/// beyond the withheld safety margin.
pub proof fn lemma_split_delimiter_safety(buf: Seq<u8>, fut: Seq<u8>, mk: Seq<u8>)
    requires
        mk.len() > 0,
        first_match(buf, mk) is None,
    ensures
        forall|q: int| match_at(buf + fut, mk, q) ==> q > buf.len() - mk.len(),
{
    lemma_first_match(buf, mk);
    assert forall|q: int| match_at(buf + fut, mk, q) implies q > buf.len() - mk.len() by {
        if q <= buf.len() - mk.len() {
            assert((buf + fut).subrange(q, q + mk.len()) =~= buf.subrange(q, q + mk.len()));
            assert(match_at(buf, mk, q));
        }
    }
}

/// A body pull with no delimiter buffered and the stream still open
/// delivers only bytes that precede every delimiter occurrence in any
/// extension of the stream: a delimiter split across feeds is never
/// leaked into body output.
pub proof fn lemma_read_never_leaks_delimiter(m: ParserModel, size: int, fut: Seq<u8>, q: int)
    requires
        m.state == ParserState::ReadingBody,
        first_match(m.buffer, marker_of(m)) is None,
        !m.end_of_stream,
        match_at(m.buffer + fut, marker_of(m), q),
    ensures
        spec_read_len(m, size) <= q,
{
    lemma_split_delimiter_safety(m.buffer, fut, marker_of(m));
}

/// The body bytes an optional chunk carries.
pub open spec fn opt_chunk(c: Option<Seq<u8>>) -> Seq<u8> {
    match c {
        Some(s) => s,
        None => Seq::empty(),
    }
}

/// Ordering without loss: two consecutive body pulls deliver adjacent
/// ranges of the buffered body — together a prefix, in wire order,
/// without gap, duplicate or reordering — and exactly those bytes
/// leave the buffer.
pub proof fn lemma_read_order(m: ParserModel, s1: int, s2: int)
    requires
        m.state == ParserState::ReadingBody,
    ensures
        ({
            let (c1, m1) = spec_read(m, s1);
            let (c2, m2) = spec_read(m1, s2);
            let delivered = opt_chunk(c1) + opt_chunk(c2);
            &&& delivered == m.buffer.take(delivered.len() as int)
            &&& m2.buffer == m.buffer.skip(delivered.len() as int)
            &&& m2.state == m.state
            &&& m2.boundary == m.boundary
            &&& m2.headers == m.headers
        }),
{
    let (c1, m1) = spec_read(m, s1);
    let (c2, m2) = spec_read(m1, s2);
    let k1 = spec_read_len(m, s1);
    let mk = marker_of(m);
    if first_match(m.buffer, mk) is Some {
        lemma_first_match(m.buffer, mk);
    }
    assert(k1 <= m.buffer.len());
    if first_match(m1.buffer, marker_of(m1)) is Some {
        lemma_first_match(m1.buffer, marker_of(m1));
    }
    assert(spec_read_len(m1, s2) <= m1.buffer.len());
    if c1 is None {
        let delivered = opt_chunk(c1) + opt_chunk(c2);
        if c2 is None {
            assert(delivered =~= m.buffer.take(0));
            assert(m2.buffer =~= m.buffer.skip(0));
        } else {
            let k2 = spec_read_len(m1, s2);
            assert(delivered =~= m.buffer.take(k2));
            assert(m2.buffer =~= m.buffer.skip(k2));
        }
    } else {
        assert(marker_of(m1) == marker_of(m));
        if c2 is None {
            let delivered = opt_chunk(c1) + opt_chunk(c2);
            assert(delivered =~= m.buffer.take(k1));
            assert(m2.buffer =~= m.buffer.skip(k1));
        } else {
            let k2 = spec_read_len(m1, s2);
            let delivered = opt_chunk(c1) + opt_chunk(c2);
            assert(opt_chunk(c2) =~= m.buffer.subrange(k1, k1 + k2));
            assert(delivered =~= m.buffer.take(k1 + k2));
            assert(m2.buffer =~= m.buffer.skip(k1 + k2));
        }
    }
}

/// Does `b1` hold exactly a suffix of `b0`: everything `b0` held,
/// less some bytes taken off the front?
pub open spec fn consumes_front(b0: Seq<u8>, b1: Seq<u8>) -> bool {
    exists|k: int| 0 <= k <= b0.len() && b1 == b0.skip(k)
}

/// Advancement consumes only from the front of the retained buffer:
/// what remains after seeking the next part is a suffix of what was
/// held, so no byte is duplicated, dropped from the middle, or
/// reordered — parts can only be met in wire order.
pub proof fn lemma_advance_consumes_front(m: ParserModel)
    ensures
        consumes_front(m.buffer, spec_advance(m).buffer),
{
    let m1 = if m.state == ParserState::SearchingBoundary {
        step_preamble(m)
    } else {
        m
    };
    assert(m.buffer.skip(0) =~= m.buffer);
    lemma_first_match_bound(m.buffer, m.boundary);
    assert(consumes_front(m.buffer, m1.buffer));
    lemma_first_match_bound(m1.buffer, double_crlf());
    let m2 = spec_advance(m);
    assert(consumes_front(m1.buffer, m2.buffer)) by {
        assert(m1.buffer.skip(0) =~= m1.buffer);
        if m1.state == ParserState::ReadingHeaders && m1.buffer.len() >= 2 && m1.buffer.subrange(
            0,
            2,
        ) == crlf() {
            assert(m2.buffer == m1.buffer.skip(2));
        }
    }
    let k1 = choose|k: int| 0 <= k <= m.buffer.len() && m1.buffer == m.buffer.skip(k);
    let k2 = choose|k: int| 0 <= k <= m1.buffer.len() && m2.buffer == m1.buffer.skip(k);
    assert(m.buffer.skip(k1).skip(k2) =~= m.buffer.skip(k1 + k2));
    assert(m2.buffer == m.buffer.skip(k1 + k2));
}

/// Crossing a delimiter consumes only from the front of the retained
/// buffer (the terminal boundary discards the whole buffer, the
/// ignored epilogue included).
pub proof fn lemma_move_consumes_front(m: ParserModel)
    ensures
        consumes_front(m.buffer, spec_move(m).buffer),
{
    assert(m.buffer.skip(0) =~= m.buffer);
    lemma_first_match_bound(m.buffer, marker_of(m));
    assert(Seq::<u8>::empty() =~= m.buffer.skip(m.buffer.len() as int));
}

/// Header case-insensitivity: names that agree up to ASCII case
/// resolve to the same lookup.
pub proof fn lemma_header_lookup_case_insensitive(
    m: Seq<(Seq<u8>, Seq<u8>)>,
    n1: Seq<u8>,
    n2: Seq<u8>,
)
    requires
        lower_spec(n1) == lower_spec(n2),
    ensures
        lookup_header(m, n1) == lookup_header(m, n2),
{
}

/// The header cap: a block of more than `MAX_HEADER_COUNT` lines
/// before its blank line never tokenizes.
pub proof fn lemma_header_cap(s: Seq<u8>)
    requires
        s.len() > 0,
        header_lines(s).len() > MAX_HEADER_COUNT,
    ensures
        parse_header_block(s) is None,
{
}

} // verus!
