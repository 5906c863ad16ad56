//! The incremental parsing engine: a state machine over a retained
//! buffer of fed-but-unclassified bytes.
//!
//! `feed` only appends; every advancement is driven by explicit pull
//! operations, so input cadence and parse cadence are decoupled.  A
//! trailing safety margin of one delimiter length is withheld from
//! body delivery whenever no delimiter has been found and more input
//! may still arrive, so a delimiter split across two feeds is never
//! leaked into body output.

use vstd::prelude::*;
use vstd::string::StringSliceAdditionalSpecFns;

use crate::boundary::{dash_dash, extract_boundary, parse_boundary};
use crate::chunk::{bytes_data, bytes_from_vec};
use crate::errors::MultipartError;
use crate::headers::{
    crlf, double_crlf, double_crlf_vec, parse_header_block, parse_headers, HeaderMap,
};
use crate::part::{file_of, MultipartFile};
use crate::scan::{find_subsequence, first_match, lemma_first_match, match_at};

verus! {

/// The phase the parser is in.
#[derive(Clone, Copy, Debug, PartialEq, Eq, Structural)]
pub enum ParserState {
    /// Discarding preamble bytes until the first delimiter.
    SearchingBoundary,
    /// Collecting a header block up to its blank line.
    ReadingHeaders,
    /// Exposing body bytes up to the next delimiter.
    ReadingBody,
    /// Terminal: nothing further will be produced.
    Done,
}

/// Mathematical model of a parser instance.
#[verifier::ext_equal]
pub ghost struct ParserModel {
    /// The delimiter `"--" + token`, fixed for the parser's lifetime.
    pub boundary: Seq<u8>,
    /// Fed but not yet classified bytes.
    pub buffer: Seq<u8>,
    pub state: ParserState,
    /// The tokenized header block of the part being read, if any.
    pub headers: Option<Seq<(Seq<u8>, Seq<u8>)>>,
    pub end_of_stream: bool,
    /// The failure that forced the terminal state, if one did.
    pub failure: Option<MultipartError>,
}

/// The delimiter as it occurs before a part boundary: a leading CRLF
/// is part of the delimiter, not of the body.
pub open spec fn marker_of(m: ParserModel) -> Seq<u8> {
    crlf() + m.boundary
}

/// Feeding appends to the retained buffer and changes nothing else;
/// after the terminal state it is a no-op.
pub open spec fn spec_feed(m: ParserModel, chunk: Seq<u8>) -> ParserModel {
    if m.state == ParserState::Done {
        m
    } else {
        ParserModel { buffer: m.buffer + chunk, ..m }
    }
}

/// Signalling end of stream is irreversible and touches nothing else.
pub open spec fn spec_finalize(m: ParserModel) -> ParserModel {
    ParserModel { end_of_stream: true, ..m }
}

/// One step out of the preamble: on the first delimiter occurrence,
/// discard through the delimiter and a following CRLF; the CRLF
/// decision waits until two bytes beyond the delimiter are at hand or
/// the stream has ended.  With no delimiter and the stream ended, the
/// stream is malformed and the parser is done.
pub open spec fn step_preamble(m: ParserModel) -> ParserModel {
    match first_match(m.buffer, m.boundary) {
        None => if m.end_of_stream {
            ParserModel { state: ParserState::Done, ..m }
        } else {
            m
        },
        Some(p) => {
            let after = p + m.boundary.len();
            if m.buffer.len() >= after + 2 {
                let consumed = if m.buffer.subrange(after, after + 2) == crlf() {
                    after + 2
                } else {
                    after
                };
                ParserModel {
                    buffer: m.buffer.skip(consumed),
                    state: ParserState::ReadingHeaders,
                    ..m
                }
            } else if m.end_of_stream {
                ParserModel { buffer: m.buffer.skip(after), state: ParserState::ReadingHeaders, ..m }
            } else {
                m
            }
        },
    }
}

/// One step through a header block: on the first blank line, the
/// bytes before it are tokenized; success opens the part, failure is
/// terminal.  A blank line immediately after the delimiter is a valid
/// empty header block.  With no blank line and the stream ended, the
/// headers are truncated and the parser is done.
pub open spec fn step_headers(m: ParserModel) -> ParserModel {
    if m.buffer.len() >= 2 && m.buffer.subrange(0, 2) == crlf() {
        ParserModel {
            buffer: m.buffer.skip(2),
            state: ParserState::ReadingBody,
            headers: Some(Seq::empty()),
            ..m
        }
    } else if m.buffer.len() < 2 && !m.end_of_stream {
        m
    } else {
        step_headers_nonempty(m)
    }
}

/// The non-empty-block half of `step_headers`: scan for the blank
/// line and tokenize the bytes before it.
pub open spec fn step_headers_nonempty(m: ParserModel) -> ParserModel {
    match first_match(m.buffer, double_crlf()) {
        None => if m.end_of_stream {
            ParserModel { state: ParserState::Done, ..m }
        } else {
            m
        },
        Some(i) => {
            let rest = m.buffer.skip(i + 4);
            match parse_header_block(m.buffer.take(i)) {
                Some(entries) => ParserModel {
                    buffer: rest,
                    state: ParserState::ReadingBody,
                    headers: Some(entries),
                    ..m
                },
                None => ParserModel {
                    buffer: rest,
                    state: ParserState::Done,
                    headers: None,
                    failure: Some(MultipartError::MalformedHeaderBlock),
                    ..m
                },
            }
        },
    }
}

/// Advancement as far as the buffered bytes allow: out of the
/// preamble, then through a complete header block.
pub open spec fn spec_advance(m: ParserModel) -> ParserModel {
    let m1 = if m.state == ParserState::SearchingBoundary {
        step_preamble(m)
    } else {
        m
    };
    if m1.state == ParserState::ReadingHeaders {
        step_headers(m1)
    } else {
        m1
    }
}

/// How many body bytes a pull of `size` delivers: body runs to the
/// next delimiter occurrence; with none found, all but a trailing
/// delimiter-length safety margin is safe to deliver, or everything
/// once the stream has ended.
pub open spec fn spec_read_len(m: ParserModel, size: int) -> int {
    let mk = marker_of(m);
    let avail = match first_match(m.buffer, mk) {
        Some(p) => p,
        None => if m.end_of_stream {
            m.buffer.len() as int
        } else if m.buffer.len() > mk.len() {
            m.buffer.len() - mk.len()
        } else {
            0
        },
    };
    if size < avail {
        size
    } else {
        avail
    }
}

/// A body pull: the delivered bytes, if any, and the parser
/// afterwards.  Delivered bytes are removed from the front of the
/// buffer, never re-delivered.
pub open spec fn spec_read(m: ParserModel, size: int) -> (Option<Seq<u8>>, ParserModel) {
    if m.state != ParserState::ReadingBody {
        (None, m)
    } else {
        let k = spec_read_len(m, size);
        if k <= 0 {
            (None, m)
        } else {
            (Some(m.buffer.take(k)), ParserModel { buffer: m.buffer.skip(k), ..m })
        }
    }
}

/// Is the current part's body fully scanned: its closing delimiter
/// buffered, or the stream ended.
pub open spec fn spec_part_ended(m: ParserModel) -> bool {
    first_match(m.buffer, marker_of(m)) is Some || m.end_of_stream
}

/// Crossing the delimiter that closes the current part, abandoning
/// any undelivered body bytes before it.  A delimiter followed by
/// `"--"` is the terminal boundary; otherwise a following CRLF is
/// consumed and the next header block begins.  The `"--"`-or-CRLF
/// decision waits until two bytes beyond the delimiter are at hand or
/// the stream has ended.
pub open spec fn spec_move(m: ParserModel) -> ParserModel {
    if m.state != ParserState::ReadingBody {
        m
    } else {
        let mk = marker_of(m);
        match first_match(m.buffer, mk) {
            None => if m.end_of_stream {
                ParserModel { state: ParserState::Done, headers: None, ..m }
            } else {
                m
            },
            Some(p) => {
                let after = p + mk.len();
                if m.buffer.len() >= after + 2 && m.buffer.subrange(after, after + 2)
                    == dash_dash() {
                    ParserModel {
                        buffer: Seq::empty(),
                        state: ParserState::Done,
                        headers: None,
                        ..m
                    }
                } else if m.buffer.len() >= after + 2 {
                    let consumed = if m.buffer.subrange(after, after + 2) == crlf() {
                        after + 2
                    } else {
                        after
                    };
                    ParserModel {
                        buffer: m.buffer.skip(consumed),
                        state: ParserState::ReadingHeaders,
                        headers: None,
                        ..m
                    }
                } else if m.end_of_stream {
                    ParserModel {
                        buffer: Seq::empty(),
                        state: ParserState::Done,
                        headers: None,
                        ..m
                    }
                } else {
                    m
                }
            },
        }
    }
}

fn concat_bytes(a: &[u8], b: &[u8]) -> (r: Vec<u8>)
    ensures
        r@ == a@ + b@,
{
    let mut r = vstd::slice::slice_to_vec(a);
    let mut i: usize = 0;
    while i < b.len()
        invariant
            0 <= i <= b@.len(),
            r@.len() == a@.len() + i,
            forall|j: int| 0 <= j < a@.len() ==> r@[j] == a@[j],
            forall|j: int| 0 <= j < i ==> r@[a@.len() + j] == b@[j],
        decreases b@.len() - i,
    {
        r.push(b[i]);
        i += 1;
    }
    proof {
        assert(r@ =~= a@ + b@);
    }
    r
}

/// The incremental multipart parser: delimiter, retained buffer,
/// state, and the headers of the part currently open.
pub struct MultipartParser {
    boundary: Vec<u8>,
    buffer: Vec<u8>,
    state: ParserState,
    current_headers: Option<HeaderMap>,
    end_of_stream: bool,
    failure: Option<MultipartError>,
}

impl View for MultipartParser {
    type V = ParserModel;

    closed spec fn view(&self) -> ParserModel {
        ParserModel {
            boundary: self.boundary@,
            buffer: self.buffer@,
            state: self.state,
            headers: match self.current_headers {
                Some(h) => Some(h@),
                None => None,
            },
            end_of_stream: self.end_of_stream,
            failure: self.failure,
        }
    }
}

impl MultipartParser {
    /// Construct a parser from the declared content type.  Succeeds
    /// exactly when boundary extraction does, and starts in the
    /// preamble with an empty buffer.
    pub fn new(content_type: &str) -> (r: Result<MultipartParser, MultipartError>)
        ensures
            match r {
                Ok(p) => extract_boundary(content_type.spec_bytes()) matches Ok(b) && p@
                    == (ParserModel {
                    boundary: b,
                    buffer: Seq::empty(),
                    state: ParserState::SearchingBoundary,
                    headers: None,
                    end_of_stream: false,
                    failure: None,
                }),
                Err(e) => extract_boundary(content_type.spec_bytes()) == Err::<Seq<u8>,
                    MultipartError,
                >(e),
            },
    {
        let ct = content_type.as_bytes();
        match parse_boundary(ct) {
            Err(e) => Err(e),
            Ok(b) => {
                let p = MultipartParser {
                    boundary: b,
                    buffer: Vec::new(),
                    state: ParserState::SearchingBoundary,
                    current_headers: None,
                    end_of_stream: false,
                    failure: None,
                };
                Ok(p)
            },
        }
    }

    /// The delimiter bytes (`"--" + token`) this parser scans for.
    pub fn boundary(&self) -> (r: &Vec<u8>)
        ensures
            r@ == self@.boundary,
    {
        &self.boundary
    }

    /// The phase the parser is in.
    pub fn state(&self) -> (r: ParserState)
        ensures
            r == self@.state,
    {
        self.state
    }

    /// Has end of stream been signalled?
    pub fn end_of_stream(&self) -> (r: bool)
        ensures
            r == self@.end_of_stream,
    {
        self.end_of_stream
    }

    /// The tokenized headers of the part currently open, if one is.
    pub fn current_headers(&self) -> (r: Option<&HeaderMap>)
        ensures
            match r {
                Some(h) => self@.headers == Some(h@),
                None => self@.headers is None,
            },
    {
        match &self.current_headers {
            Some(h) => Some(h),
            None => None,
        }
    }

    /// The failure that forced the terminal state, if one did.
    pub fn failure(&self) -> (r: Option<MultipartError>)
        ensures
            r == self@.failure,
    {
        self.failure
    }

    /// Append a chunk to the retained buffer.  Never advances state,
    /// never blocks; a no-op once the parser is done.
    pub fn feed(&mut self, chunk: &[u8])
        ensures
            final(self)@ == spec_feed(old(self)@, chunk@),
    {
        if self.state == ParserState::Done {
            return;
        }
        let nb = concat_bytes(self.buffer.as_slice(), chunk);
        self.buffer = nb;
        proof {
            assert(self@ =~~= spec_feed(old(self)@, chunk@));
        }
    }

    /// Mark that no further `feed` will occur.  Idempotent.
    pub fn finalize(&mut self)
        ensures
            final(self)@ == spec_finalize(old(self)@),
    {
        self.end_of_stream = true;
        proof {
            assert(self@ =~~= spec_finalize(old(self)@));
        }
    }

    /// The delimiter with its leading CRLF.
    fn make_marker(&self) -> (r: Vec<u8>)
        ensures
            r@ == marker_of(self@),
    {
        let mut v: Vec<u8> = Vec::new();
        v.push(13);
        v.push(10);
        let n = self.boundary.len();
        let mut i: usize = 0;
        while i < n
            invariant
                n == self.boundary@.len(),
                0 <= i <= n,
                v@.len() == 2 + i,
                v@[0] == 13u8,
                v@[1] == 10u8,
                forall|j: int| 0 <= j < i ==> v@[2 + j] == self.boundary@[j],
            decreases n - i,
        {
            v.push(self.boundary[i]);
            i += 1;
        }
        proof {
            assert(v@ =~= crlf() + self.boundary@);
        }
        v
    }

    fn step_preamble_exec(&mut self)
        requires
            old(self)@.state == ParserState::SearchingBoundary,
        ensures
            final(self)@ == step_preamble(old(self)@),
    {
        let buflen = self.buffer.len();
        match find_subsequence(self.buffer.as_slice(), self.boundary.as_slice()) {
            None => {
                if self.end_of_stream {
                    self.state = ParserState::Done;
                }
                proof {
                    assert(self@ =~~= step_preamble(old(self)@));
                }
            },
            Some(p) => {
                proof {
                    if self.boundary@.len() > 0 {
                        lemma_first_match(self.buffer@, self.boundary@);
                        assert(match_at(self.buffer@, self.boundary@, p as int));
                    }
                }
                let after = p + self.boundary.len();
                if buflen - after >= 2 {
                    let c1 = self.buffer[after];
                    let c2 = self.buffer[after + 1];
                    let consumed = if c1 == 13 && c2 == 10 {
                        after + 2
                    } else {
                        after
                    };
                    proof {
                        if c1 == 13 && c2 == 10 {
                            assert(self.buffer@.subrange(after as int, after + 2) =~= crlf());
                        } else {
                            assert(self.buffer@.subrange(after as int, after + 2)[0] == c1);
                            assert(self.buffer@.subrange(after as int, after + 2)[1] == c2);
                            assert(self.buffer@.subrange(after as int, after + 2) != crlf());
                        }
                    }
                    let t = self.buffer.split_off(consumed);
                    self.buffer = t;
                    self.state = ParserState::ReadingHeaders;
                    proof {
                        assert(self.buffer@ =~= old(self)@.buffer.skip(consumed as int));
                        assert(self@ =~~= step_preamble(old(self)@));
                    }
                } else if self.end_of_stream {
                    let t = self.buffer.split_off(after);
                    self.buffer = t;
                    self.state = ParserState::ReadingHeaders;
                    proof {
                        assert(self.buffer@ =~= old(self)@.buffer.skip(after as int));
                        assert(self@ =~~= step_preamble(old(self)@));
                    }
                } else {
                    proof {
                        assert(self@ =~~= step_preamble(old(self)@));
                    }
                }
            },
        }
    }

    fn step_headers_exec(&mut self)
        requires
            old(self)@.state == ParserState::ReadingHeaders,
        ensures
            final(self)@ == step_headers(old(self)@),
    {
        let buflen0 = self.buffer.len();
        if buflen0 >= 2 {
            let c1 = self.buffer[0];
            let c2 = self.buffer[1];
            if c1 == 13 && c2 == 10 {
                proof {
                    assert(self.buffer@.subrange(0, 2) =~= crlf());
                }
                let t = self.buffer.split_off(2);
                self.buffer = t;
                self.current_headers = Some(HeaderMap::new());
                self.state = ParserState::ReadingBody;
                proof {
                    assert(self.buffer@ =~= old(self)@.buffer.skip(2));
                    assert(self@ =~~= step_headers(old(self)@));
                }
                return;
            }
            proof {
                assert(self.buffer@.subrange(0, 2)[0] == c1);
                assert(self.buffer@.subrange(0, 2)[1] == c2);
                assert(self.buffer@.subrange(0, 2) != crlf());
            }
        } else if !self.end_of_stream {
            proof {
                assert(self@ =~~= step_headers(old(self)@));
            }
            return;
        }
        let dc = double_crlf_vec();
        match find_subsequence(self.buffer.as_slice(), dc.as_slice()) {
            None => {
                if self.end_of_stream {
                    self.state = ParserState::Done;
                }
                proof {
                    assert(self@ =~~= step_headers(old(self)@));
                }
            },
            Some(i) => {
                proof {
                    lemma_first_match(self.buffer@, double_crlf());
                    assert(match_at(self.buffer@, double_crlf(), i as int));
                }
                let block = vstd::slice::slice_subrange(self.buffer.as_slice(), 0, i);
                let hr = parse_headers(block);
                let buflen = self.buffer.len();
                proof {
                    assert(self.buffer@.subrange(0, i as int) =~= self.buffer@.take(i as int));
                    assert(i + 4 <= buflen);
                }
                let t = self.buffer.split_off(i + 4);
                self.buffer = t;
                match hr {
                    Ok(hm) => {
                        self.current_headers = Some(hm);
                        self.state = ParserState::ReadingBody;
                    },
                    Err(_) => {
                        self.current_headers = None;
                        self.failure = Some(MultipartError::MalformedHeaderBlock);
                        self.state = ParserState::Done;
                    },
                }
                proof {
                    assert(self.buffer@ =~= old(self)@.buffer.skip(i + 4));
                    assert(self@ =~~= step_headers(old(self)@));
                }
            },
        }
    }

    /// Advance as far as the buffered bytes allow: discard the
    /// preamble when its delimiter is buffered, then tokenize a
    /// complete header block and open the part it describes.
    pub fn parse_until_headers(&mut self)
        ensures
            final(self)@ == spec_advance(old(self)@),
    {
        if self.state == ParserState::SearchingBoundary {
            self.step_preamble_exec();
        }
        if self.state == ParserState::ReadingHeaders {
            self.step_headers_exec();
        }
        proof {
            assert(self@ =~~= spec_advance(old(self)@));
        }
    }

    /// The next part, once its headers are fully parsed; `None` while
    /// more input is needed, while the current part is still open,
    /// and forever once the parser is done.
    pub fn next_part(&mut self) -> (r: Option<MultipartFile>)
        ensures
            final(self)@ == spec_advance(old(self)@),
            r is Some <==> (old(self)@.state != ParserState::ReadingBody && spec_advance(
                old(self)@,
            ).state == ParserState::ReadingBody),
            r matches Some(f) ==> spec_advance(old(self)@).headers matches Some(es) && f@
                == file_of(es),
    {
        if self.state == ParserState::ReadingBody {
            proof {
                assert(self@ =~~= spec_advance(old(self)@));
            }
            return None;
        }
        self.parse_until_headers();
        if self.state == ParserState::ReadingBody {
            match &self.current_headers {
                Some(h) => Some(MultipartFile::from_headers(h)),
                None => {
                    proof {
                        assert(false);
                    }
                    None
                },
            }
        } else {
            None
        }
    }

    /// Pull up to `size` body bytes of the part currently open.
    /// Delivered bytes leave the buffer front and are never
    /// re-delivered; `None` once nothing is safe to deliver.
    pub fn read_body_chunk(&mut self, size: usize) -> (r: Option<bytes::Bytes>)
        ensures
            final(self)@ == spec_read(old(self)@, size as int).1,
            match r {
                Some(b) => spec_read(old(self)@, size as int).0 == Some(bytes_data(b)),
                None => spec_read(old(self)@, size as int).0 is None,
            },
    {
        if self.state != ParserState::ReadingBody {
            return None;
        }
        let mk = self.make_marker();
        let buflen = self.buffer.len();
        let avail: usize = match find_subsequence(self.buffer.as_slice(), mk.as_slice()) {
            Some(p) => {
                proof {
                    lemma_first_match(self.buffer@, mk@);
                    assert(match_at(self.buffer@, mk@, p as int));
                }
                p
            },
            None => {
                if self.end_of_stream {
                    buflen
                } else if buflen > mk.len() {
                    buflen - mk.len()
                } else {
                    0
                }
            },
        };
        let k = if size < avail {
            size
        } else {
            avail
        };
        proof {
            assert(k as int == spec_read_len(self@, size as int));
        }
        if k == 0 {
            return None;
        }
        let chunk_vec = vstd::slice::slice_to_vec(
            vstd::slice::slice_subrange(self.buffer.as_slice(), 0, k),
        );
        let t = self.buffer.split_off(k);
        self.buffer = t;
        proof {
            assert(chunk_vec@ =~= old(self)@.buffer.take(k as int));
            assert(self.buffer@ =~= old(self)@.buffer.skip(k as int));
            assert(self@ =~~= spec_read(old(self)@, size as int).1);
        }
        Some(bytes_from_vec(chunk_vec))
    }

    /// Has the current part's body been fully scanned: its closing
    /// delimiter is buffered, or the stream has ended.
    pub fn is_part_ended(&self) -> (r: bool)
        ensures
            r == spec_part_ended(self@),
    {
        let mk = self.make_marker();
        match find_subsequence(self.buffer.as_slice(), mk.as_slice()) {
            Some(_) => true,
            None => self.end_of_stream,
        }
    }

    /// Cross the delimiter that closes the current part, abandoning
    /// any body bytes not yet delivered.  The terminal `"--"` suffix
    /// ends the stream; otherwise the next header block begins.
    pub fn move_to_next_part(&mut self)
        ensures
            final(self)@ == spec_move(old(self)@),
    {
        if self.state != ParserState::ReadingBody {
            proof {
                assert(self@ =~~= spec_move(old(self)@));
            }
            return;
        }
        let mk = self.make_marker();
        let buflen = self.buffer.len();
        match find_subsequence(self.buffer.as_slice(), mk.as_slice()) {
            None => {
                if self.end_of_stream {
                    self.state = ParserState::Done;
                    self.current_headers = None;
                }
                proof {
                    assert(self@ =~~= spec_move(old(self)@));
                }
            },
            Some(p) => {
                proof {
                    lemma_first_match(self.buffer@, mk@);
                    assert(match_at(self.buffer@, mk@, p as int));
                }
                let after = p + mk.len();
                if buflen - after >= 2 {
                    let c1 = self.buffer[after];
                    let c2 = self.buffer[after + 1];
                    proof {
                        assert(self.buffer@.subrange(after as int, after + 2)[0] == c1);
                        assert(self.buffer@.subrange(after as int, after + 2)[1] == c2);
                        if c1 == 45 && c2 == 45 {
                            assert(self.buffer@.subrange(after as int, after + 2) =~= dash_dash());
                        } else {
                            assert(self.buffer@.subrange(after as int, after + 2) != dash_dash());
                        }
                        if c1 == 13 && c2 == 10 {
                            assert(self.buffer@.subrange(after as int, after + 2) =~= crlf());
                        } else {
                            assert(self.buffer@.subrange(after as int, after + 2) != crlf());
                        }
                    }
                    if c1 == 45 && c2 == 45 {
                        self.buffer = Vec::new();
                        self.state = ParserState::Done;
                        self.current_headers = None;
                        proof {
                            assert(self@ =~~= spec_move(old(self)@));
                        }
                    } else {
                        let consumed = if c1 == 13 && c2 == 10 {
                            after + 2
                        } else {
                            after
                        };
                        let t = self.buffer.split_off(consumed);
                        self.buffer = t;
                        self.state = ParserState::ReadingHeaders;
                        self.current_headers = None;
                        proof {
                            assert(self.buffer@ =~= old(self)@.buffer.skip(consumed as int));
                            assert(self@ =~~= spec_move(old(self)@));
                        }
                    }
                } else if self.end_of_stream {
                    self.buffer = Vec::new();
                    self.state = ParserState::Done;
                    self.current_headers = None;
                    proof {
                        assert(self@ =~~= spec_move(old(self)@));
                    }
                } else {
                    proof {
                        assert(self@ =~~= spec_move(old(self)@));
                    }
                }
            },
        }
    }
}

} // verus!
