use multipart::disposition::parse_content_disposition;

#[test]
fn disposition_params_are_tokenized() {
    let p = parse_content_disposition(b"form-data; name=\"a\"; filename=fn.txt; flag");
    assert_eq!(p.get(b"name"), Some(Some(b"a".to_vec())));
    assert_eq!(p.get(b"filename"), Some(Some(b"fn.txt".to_vec())));
    assert_eq!(p.get(b"flag"), Some(None));
    assert_eq!(p.get(b"form-data"), Some(None));
    assert_eq!(p.get(b"absent"), None);
    assert_eq!(p.len(), 4);
}

#[test]
fn later_assignment_wins() {
    let p = parse_content_disposition(b"name=a; name=b");
    assert_eq!(p.get(b"name"), Some(Some(b"b".to_vec())));
    assert_eq!(p.len(), 1);
}

#[test]
fn empty_value_is_a_flag() {
    let p = parse_content_disposition(b"name=");
    assert_eq!(p.get(b"name"), Some(None));
    let q = parse_content_disposition(b"name=\"\"");
    assert_eq!(q.get(b"name"), Some(None));
}

#[test]
fn whitespace_and_blank_segments_are_trimmed() {
    let p = parse_content_disposition(b"  name = \"spaced\" ;; ; filename = f ");
    assert_eq!(p.get(b"name"), Some(Some(b"spaced".to_vec())));
    assert_eq!(p.get(b"filename"), Some(Some(b"f".to_vec())));
    assert_eq!(p.len(), 2);
}

#[test]
fn empty_input_has_no_params() {
    let p = parse_content_disposition(b"");
    assert_eq!(p.get(b"name"), None);
    assert_eq!(p.len(), 0);
}
