use multipart::errors::MultipartError;
use multipart::headers::{parse_headers, MAX_HEADER_COUNT};

#[test]
fn header_block_tokenizes() {
    let hm = parse_headers(b"Content-Type: text/plain\r\nX-Custom:  spaced value ").unwrap();
    assert_eq!(hm.len(), 2);
    assert_eq!(hm.get(b"content-type"), Some(b"text/plain".to_vec()));
    assert_eq!(hm.get(b"x-custom"), Some(b"spaced value".to_vec()));
    assert_eq!(hm.get(b"missing"), None);
}

#[test]
fn lookups_are_case_insensitive() {
    let hm = parse_headers(b"Content-Type: text/plain").unwrap();
    assert_eq!(hm.get(b"Content-Type"), hm.get(b"CONTENT-TYPE"));
    assert_eq!(hm.get(b"CONTENT-TYPE"), Some(b"text/plain".to_vec()));
}

#[test]
fn empty_block_is_an_empty_map() {
    let hm = parse_headers(b"").unwrap();
    assert_eq!(hm.len(), 0);
}

#[test]
fn first_occurrence_wins_in_the_map() {
    let hm = parse_headers(b"A: one\r\na: two").unwrap();
    assert_eq!(hm.len(), 1);
    assert_eq!(hm.get(b"a"), Some(b"one".to_vec()));
}

#[test]
fn line_without_colon_is_rejected() {
    assert!(matches!(
        parse_headers(b"A: one\r\nbroken line"),
        Err(MultipartError::MalformedHeaderBlock)
    ));
}

#[test]
fn cap_is_ten_lines() {
    assert_eq!(MAX_HEADER_COUNT, 10);
    let ten = (0..10).map(|i| format!("H{i}: v")).collect::<Vec<_>>().join("\r\n");
    assert!(parse_headers(ten.as_bytes()).is_ok());
    let eleven = (0..11).map(|i| format!("H{i}: v")).collect::<Vec<_>>().join("\r\n");
    assert!(matches!(
        parse_headers(eleven.as_bytes()),
        Err(MultipartError::MalformedHeaderBlock)
    ));
}

#[test]
fn error_messages_name_the_condition() {
    assert_eq!(MultipartError::InvalidContentType.message(), "invalid content type");
    assert_eq!(MultipartError::MissingBoundary.message(), "missing boundary");
    assert_eq!(
        MultipartError::MalformedHeaderBlock.message(),
        "malformed header block"
    );
}
