use multipart::boundary::parse_boundary;
use multipart::errors::MultipartError;
use multipart::parser::{MultipartParser, ParserState};

struct CollectedPart {
    name: Option<Vec<u8>>,
    filename: Option<Vec<u8>>,
    content_type: Option<Vec<u8>>,
    body: Vec<u8>,
}

/// Pull everything the currently buffered bytes allow out of the parser.
fn pump(
    p: &mut MultipartParser,
    current: &mut Option<CollectedPart>,
    parts: &mut Vec<CollectedPart>,
) {
    loop {
        match p.state() {
            ParserState::SearchingBoundary | ParserState::ReadingHeaders => {
                let st0 = p.state();
                match p.next_part() {
                    Some(f) => {
                        *current = Some(CollectedPart {
                            name: f.name,
                            filename: f.filename,
                            content_type: f.content_type,
                            body: Vec::new(),
                        });
                    }
                    None => {
                        if p.state() == st0 {
                            return;
                        }
                    }
                }
            }
            ParserState::ReadingBody => match p.read_body_chunk(1024) {
                Some(b) => {
                    current
                        .as_mut()
                        .expect("body bytes with no open part")
                        .body
                        .extend_from_slice(&b[..]);
                }
                None => {
                    if p.is_part_ended() {
                        if let Some(done) = current.take() {
                            parts.push(done);
                        }
                        p.move_to_next_part();
                        if p.state() == ParserState::ReadingBody {
                            // Too few bytes beyond the delimiter to decide
                            // between terminal "--" and a next part.
                            return;
                        }
                    } else {
                        return;
                    }
                }
            },
            ParserState::Done => {
                if let Some(done) = current.take() {
                    parts.push(done);
                }
                return;
            }
        }
    }
}

fn drive(content_type: &str, chunks: &[&[u8]]) -> (Vec<CollectedPart>, Option<MultipartError>) {
    let mut p = MultipartParser::new(content_type).expect("construction should succeed");
    let mut parts: Vec<CollectedPart> = Vec::new();
    let mut current: Option<CollectedPart> = None;
    for c in chunks {
        p.feed(c);
        pump(&mut p, &mut current, &mut parts);
    }
    p.finalize();
    pump(&mut p, &mut current, &mut parts);
    (parts, p.failure())
}

const SINGLE: &[u8] = b"--X\r\nContent-Disposition: form-data; name=\"a\"\r\n\r\nhi\r\n--X--\r\n";

#[test]
fn single_part_form_data() {
    let (parts, failure) = drive("multipart/form-data; boundary=X", &[SINGLE]);
    assert_eq!(parts.len(), 1);
    assert_eq!(parts[0].name, Some(b"a".to_vec()));
    assert_eq!(parts[0].filename, None);
    assert_eq!(parts[0].content_type, None);
    assert_eq!(parts[0].body, b"hi".to_vec());
    assert_eq!(failure, None);
}

#[test]
fn quoted_boundary_same_delimiter() {
    let p1 = MultipartParser::new("multipart/form-data; boundary=X").unwrap();
    let p2 = MultipartParser::new("multipart/form-data; boundary=\"X\"").unwrap();
    assert_eq!(p1.boundary(), p2.boundary());
    assert_eq!(p1.boundary().as_slice(), b"--X");

    let (parts, _) = drive("multipart/form-data; boundary=\"X\"", &[SINGLE]);
    assert_eq!(parts.len(), 1);
    assert_eq!(parts[0].name, Some(b"a".to_vec()));
    assert_eq!(parts[0].body, b"hi".to_vec());
}

#[test]
fn parse_boundary_quoted_and_unquoted() {
    let b1 = parse_boundary(b"multipart/mixed; boundary=abc").unwrap();
    let b2 = parse_boundary(b"multipart/mixed; boundary=\"abc\"").unwrap();
    assert_eq!(b1, b2);
    assert_eq!(b1.as_slice(), b"--abc");
    assert_eq!(
        parse_boundary(b"multipart/mixed; charset=utf-8; boundary=zz").unwrap().as_slice(),
        b"--zz"
    );
}

#[test]
fn missing_boundary_param() {
    let r = MultipartParser::new("multipart/form-data; charset=utf-8");
    assert!(matches!(r, Err(MultipartError::MissingBoundary)));
    assert!(matches!(
        parse_boundary(b"multipart/form-data"),
        Err(MultipartError::MissingBoundary)
    ));
    // An empty value, quoted or not, is also a missing boundary.
    assert!(matches!(
        parse_boundary(b"multipart/form-data; boundary="),
        Err(MultipartError::MissingBoundary)
    ));
    assert!(matches!(
        parse_boundary(b"multipart/form-data; boundary=\"\""),
        Err(MultipartError::MissingBoundary)
    ));
}

#[test]
fn invalid_content_type() {
    assert!(matches!(
        MultipartParser::new("text/plain; boundary=X"),
        Err(MultipartError::InvalidContentType)
    ));
    // The multipart/ prefix is matched case-insensitively.
    assert!(MultipartParser::new("Multipart/Form-Data; boundary=X").is_ok());
}

const TWO_PARTS: &[u8] = b"preamble junk\r\n--bnd\r\nContent-Disposition: form-data; name=\"first\"\r\n\r\nhello\r\n--bnd\r\nContent-Disposition: form-data; name=\"second\"; filename=\"f.txt\"\r\nContent-Type: text/plain\r\n\r\nworld!\r\n--bnd--\r\nepilogue";

fn check_two_parts(parts: &[CollectedPart]) {
    assert_eq!(parts.len(), 2);
    assert_eq!(parts[0].name, Some(b"first".to_vec()));
    assert_eq!(parts[0].filename, None);
    assert_eq!(parts[0].body, b"hello".to_vec());
    assert_eq!(parts[1].name, Some(b"second".to_vec()));
    assert_eq!(parts[1].filename, Some(b"f.txt".to_vec()));
    assert_eq!(parts[1].content_type, Some(b"text/plain".to_vec()));
    assert_eq!(parts[1].body, b"world!".to_vec());
}

#[test]
fn two_parts_fed_whole() {
    let (parts, failure) = drive("multipart/form-data; boundary=bnd", &[TWO_PARTS]);
    check_two_parts(&parts);
    assert_eq!(failure, None);
}

#[test]
fn two_parts_split_at_every_offset() {
    for cut in 0..=TWO_PARTS.len() {
        let (a, b) = TWO_PARTS.split_at(cut);
        let (parts, failure) = drive("multipart/form-data; boundary=bnd", &[a, b]);
        check_two_parts(&parts);
        assert_eq!(failure, None);
    }
}

#[test]
fn two_parts_fed_byte_by_byte() {
    let chunks: Vec<&[u8]> = TWO_PARTS.chunks(1).collect();
    let (parts, failure) = drive("multipart/form-data; boundary=bnd", &chunks);
    check_two_parts(&parts);
    assert_eq!(failure, None);
}

#[test]
fn delimiter_split_across_feeds() {
    // The delimiter "\r\n--myboundary" arrives split in the middle:
    // "--my" at the end of one feed, "boundary" at the start of the next.
    let whole: &[u8] = b"--myboundary\r\n\r\nAB\r\n--myboundary--\r\n";
    let cut = b"--myboundary\r\n\r\nAB\r\n--my".len();
    let (a, b) = whole.split_at(cut);
    let (parts, failure) = drive("multipart/form-data; boundary=myboundary", &[a, b]);
    assert_eq!(parts.len(), 1);
    assert_eq!(parts[0].body, b"AB".to_vec());
    assert_eq!(failure, None);
}

#[test]
fn body_with_delimiter_prefix_is_kept() {
    // "\r\n--bound" is a proper prefix of the delimiter "\r\n--boundary123";
    // "--boundary123" without a CRLF before it is body text too.
    let whole: &[u8] =
        b"--boundary123\r\n\r\na\r\n--bound b x--boundary123y\r\n--boundary123--\r\n";
    for cut in 0..=whole.len() {
        let (a, b) = whole.split_at(cut);
        let (parts, failure) = drive("multipart/form-data; boundary=boundary123", &[a, b]);
        assert_eq!(parts.len(), 1, "cut at {cut}");
        assert_eq!(parts[0].body, b"a\r\n--bound b x--boundary123y".to_vec(), "cut at {cut}");
        assert_eq!(failure, None);
    }
}

#[test]
fn header_names_resolve_case_insensitively() {
    let body: &[u8] =
        b"--X\r\nCONTENT-TYPE: text/plain\r\nContent-Disposition: form-data; name=\"a\"\r\n\r\nhi\r\n--X--\r\n";
    let (parts, _) = drive("multipart/form-data; boundary=X", &[body]);
    assert_eq!(parts.len(), 1);
    assert_eq!(parts[0].content_type, Some(b"text/plain".to_vec()));
    assert_eq!(parts[0].name, Some(b"a".to_vec()));
}

#[test]
fn first_header_occurrence_wins() {
    let body: &[u8] = b"--X\r\nContent-Type: text/plain\r\nContent-Type: text/html\r\n\r\nhi\r\n--X--\r\n";
    let (parts, _) = drive("multipart/form-data; boundary=X", &[body]);
    assert_eq!(parts.len(), 1);
    assert_eq!(parts[0].content_type, Some(b"text/plain".to_vec()));
}

fn header_block(n: usize) -> Vec<u8> {
    let mut s: Vec<u8> = b"--X\r\n".to_vec();
    for i in 0..n {
        s.extend_from_slice(format!("H{i}: v{i}\r\n").as_bytes());
    }
    s.extend_from_slice(b"\r\nhi\r\n--X--\r\n");
    s
}

#[test]
fn ten_headers_are_accepted() {
    let body = header_block(10);
    let (parts, failure) = drive("multipart/form-data; boundary=X", &[&body]);
    assert_eq!(parts.len(), 1);
    assert_eq!(parts[0].body, b"hi".to_vec());
    assert_eq!(failure, None);
}

#[test]
fn more_than_ten_headers_are_malformed() {
    let body = header_block(11);
    let (parts, failure) = drive("multipart/form-data; boundary=X", &[&body]);
    assert_eq!(parts.len(), 0);
    assert_eq!(failure, Some(MultipartError::MalformedHeaderBlock));
}

#[test]
fn header_line_without_colon_is_malformed() {
    let body: &[u8] = b"--X\r\nno colon here\r\n\r\nhi\r\n--X--\r\n";
    let (parts, failure) = drive("multipart/form-data; boundary=X", &[body]);
    assert_eq!(parts.len(), 0);
    assert_eq!(failure, Some(MultipartError::MalformedHeaderBlock));
}

#[test]
fn zero_headers_is_a_valid_part() {
    let body: &[u8] = b"--X\r\n\r\nbare body\r\n--X--\r\n";
    let (parts, failure) = drive("multipart/form-data; boundary=X", &[body]);
    assert_eq!(parts.len(), 1);
    assert_eq!(parts[0].name, None);
    assert_eq!(parts[0].filename, None);
    assert_eq!(parts[0].content_type, None);
    assert_eq!(parts[0].body, b"bare body".to_vec());
    assert_eq!(failure, None);
}

#[test]
fn truncated_body_is_surfaced() {
    let body: &[u8] = b"--X\r\nContent-Disposition: form-data; name=\"a\"\r\n\r\npartial";
    let (parts, failure) = drive("multipart/form-data; boundary=X", &[body]);
    assert_eq!(parts.len(), 1);
    assert_eq!(parts[0].body, b"partial".to_vec());
    assert_eq!(failure, None);
}

#[test]
fn truncated_headers_produce_no_part() {
    let body: &[u8] = b"--X\r\nContent-Disposition: form-data";
    let (parts, failure) = drive("multipart/form-data; boundary=X", &[body]);
    assert_eq!(parts.len(), 0);
    assert_eq!(failure, None);
}

#[test]
fn bounded_pulls_deliver_in_order() {
    let mut p = MultipartParser::new("multipart/form-data; boundary=X").unwrap();
    p.feed(b"--X\r\n\r\nhello\r\n--X--\r\n");
    let f = p.next_part();
    assert!(f.is_some());
    let mut body: Vec<u8> = Vec::new();
    loop {
        match p.read_body_chunk(1) {
            Some(b) => {
                assert!(b.len() <= 1);
                body.extend_from_slice(&b[..]);
            }
            None => break,
        }
    }
    assert_eq!(body, b"hello".to_vec());
    assert!(p.is_part_ended());
}

#[test]
fn safety_margin_is_withheld_until_more_input() {
    let mut p = MultipartParser::new("multipart/form-data; boundary=X").unwrap();
    // Delimiter is "\r\n--X": five bytes are withheld while the
    // stream is still open and no delimiter is in sight.
    p.feed(b"--X\r\n\r\nabcdefghij");
    let f = p.next_part();
    assert!(f.is_some());
    let first = p.read_body_chunk(100).expect("a prefix must be safe to deliver");
    assert_eq!(&first[..], b"abcde");
    assert!(p.read_body_chunk(100).is_none());
    p.feed(b"\r\n--X--\r\n");
    let second = p.read_body_chunk(100).expect("the rest follows the delimiter scan");
    assert_eq!(&second[..], b"fghij");
    assert!(p.read_body_chunk(100).is_none());
    assert!(p.is_part_ended());
}

#[test]
fn feed_after_terminal_is_a_no_op() {
    let mut p = MultipartParser::new("multipart/form-data; boundary=X").unwrap();
    p.feed(SINGLE);
    let mut parts = Vec::new();
    let mut current = None;
    pump(&mut p, &mut current, &mut parts);
    assert_eq!(p.state(), ParserState::Done);
    p.feed(b"--X\r\n\r\nmore\r\n--X--\r\n");
    assert!(p.next_part().is_none());
    assert_eq!(p.state(), ParserState::Done);
    assert_eq!(parts.len(), 1);
}

#[test]
fn finalize_is_idempotent() {
    let mut p = MultipartParser::new("multipart/form-data; boundary=X").unwrap();
    p.finalize();
    assert!(p.end_of_stream());
    p.finalize();
    assert!(p.end_of_stream());
    assert!(p.next_part().is_none());
    assert_eq!(p.state(), ParserState::Done);
}

#[test]
fn explicit_state_walk() {
    let mut p = MultipartParser::new("multipart/form-data; boundary=X").unwrap();
    assert_eq!(p.state(), ParserState::SearchingBoundary);
    assert!(p.current_headers().is_none());
    p.feed(b"junk\r\n--X\r\nContent-Type: a/b\r\n\r\nbody\r\n--X--\r\n");
    p.parse_until_headers();
    assert_eq!(p.state(), ParserState::ReadingBody);
    let hm = p.current_headers().expect("the part is open");
    assert_eq!(hm.get(b"content-type"), Some(b"a/b".to_vec()));
    let b = p.read_body_chunk(100).expect("body is delimited");
    assert_eq!(&b[..], b"body");
    assert!(p.read_body_chunk(100).is_none());
    assert!(p.is_part_ended());
    p.move_to_next_part();
    assert_eq!(p.state(), ParserState::Done);
    assert!(p.current_headers().is_none());
    assert_eq!(p.failure(), None);
}

#[test]
fn empty_stream_yields_no_parts() {
    let (parts, failure) = drive("multipart/form-data; boundary=X", &[b""]);
    assert_eq!(parts.len(), 0);
    assert_eq!(failure, None);
}
