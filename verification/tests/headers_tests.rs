use h1core::headers::Headers;

fn pairs(items: &[(&[u8], &[u8])]) -> Vec<(Vec<u8>, Vec<u8>)> {
    items.iter().map(|(n, v)| (n.to_vec(), v.to_vec())).collect()
}

#[test]
fn scenario_duplicate_content_length_with_whitespace_collapses() {
    let h = Headers::normalize_and_validate(
        &pairs(&[(b"Content-Length", b"5"), (b"Content-Length", b" 5 ")]),
        false,
    )
    .unwrap();
    let raw = h.raw_items();
    assert_eq!(raw, vec![(b"Content-Length".to_vec(), b"5".to_vec())]);
}

#[test]
fn scenario_conflicting_content_length_fails() {
    let e = Headers::normalize_and_validate(
        &pairs(&[(b"Content-Length", b"5"), (b"Content-Length", b"6")]),
        false,
    )
    .unwrap_err();
    assert_eq!(e.0, "conflicting Content-Length headers");
}

#[test]
fn comma_joined_equal_content_length_collapses() {
    let h = Headers::normalize_and_validate(
        &pairs(&[(b"Content-Length", b"5"), (b"Content-Length", b"5, 5")]),
        false,
    )
    .unwrap();
    assert_eq!(h.raw_items(), vec![(b"Content-Length".to_vec(), b"5".to_vec())]);
    let single = Headers::normalize_and_validate(&pairs(&[(b"Content-Length", b"5, 5")]), false)
        .unwrap();
    assert_eq!(single.raw_items(), vec![(b"Content-Length".to_vec(), b"5".to_vec())]);
}

#[test]
fn comma_joined_disagreeing_content_length_conflicts() {
    let e = Headers::normalize_and_validate(&pairs(&[(b"Content-Length", b"5, 6")]), false)
        .unwrap_err();
    assert_eq!(e.0, "conflicting Content-Length headers");
}

#[test]
fn non_numeric_content_length_fails() {
    let e = Headers::normalize_and_validate(&pairs(&[(b"Content-Length", b"abc")]), false)
        .unwrap_err();
    assert_eq!(e.0, "bad Content-Length");
}

#[test]
fn transfer_encoding_other_than_chunked_fails() {
    let e = Headers::normalize_and_validate(&pairs(&[(b"Transfer-Encoding", b"gzip")]), false)
        .unwrap_err();
    assert_eq!(e.0, "Only Transfer-Encoding: chunked is supported");
}

#[test]
fn transfer_encoding_chunked_any_case_normalizes_to_lowercase() {
    let h = Headers::normalize_and_validate(&pairs(&[(b"Transfer-Encoding", b"ChUnKeD")]), false)
        .unwrap();
    let raw = h.raw_items();
    assert_eq!(raw, vec![(b"Transfer-Encoding".to_vec(), b"chunked".to_vec())]);
}

#[test]
fn repeated_transfer_encoding_fails() {
    let e = Headers::normalize_and_validate(
        &pairs(&[(b"Transfer-Encoding", b"chunked"), (b"Transfer-Encoding", b"chunked")]),
        false,
    )
    .unwrap_err();
    assert_eq!(e.0, "multiple Transfer-Encoding headers");
}

#[test]
fn empty_name_and_value_are_rejected() {
    let e = Headers::normalize_and_validate(&pairs(&[(b"", b"x")]), false).unwrap_err();
    assert_eq!(e.0, "Empty input");
    let e = Headers::normalize_and_validate(&pairs(&[(b"a", b"")]), false).unwrap_err();
    assert_eq!(e.0, "Empty input");
}

#[test]
fn illegal_name_and_value_are_rejected() {
    let e = Headers::normalize_and_validate(&pairs(&[(b"a name", b"x")]), false).unwrap_err();
    assert_eq!(e.0, "Illegal header name");
    let e = Headers::normalize_and_validate(&pairs(&[(b"a", b"\x01")]), false).unwrap_err();
    assert_eq!(e.0, "Illegal header value");
}

#[test]
fn normalization_is_idempotent() {
    let h = Headers::normalize_and_validate(
        &pairs(&[
            (b"Content-Length", b"  7 "),
            (b"Transfer-Encoding", b"CHUNKED"),
            (b"Accept", b"text/plain"),
        ]),
        false,
    )
    .unwrap();
    let again = Headers::normalize_and_validate(&h.raw_items(), true).unwrap();
    assert_eq!(h.raw_items(), again.raw_items());
}

#[test]
fn get_comma_header_folds_splits_and_trims() {
    let h = Headers::normalize_and_validate(
        &pairs(&[(b"Accept", b"Text/Plain, text/HTML"), (b"accept", b"application/json")]),
        false,
    )
    .unwrap();
    let values = h.get_comma_header(b"accept");
    assert_eq!(
        values,
        vec![b"text/plain".to_vec(), b"text/html".to_vec(), b"application/json".to_vec()]
    );
}

#[test]
fn set_comma_header_replaces_existing_entries() {
    let h = Headers::normalize_and_validate(
        &pairs(&[(b"Accept", b"text/plain"), (b"Other", b"x")]),
        false,
    )
    .unwrap();
    let h2 = h
        .set_comma_header(b"accept", vec![b"text/html".to_vec()])
        .unwrap();
    let raw = h2.raw_items();
    assert_eq!(
        raw,
        vec![
            (b"Other".to_vec(), b"x".to_vec()),
            (b"ACCEPT".to_vec(), b"text/html".to_vec()),
        ]
    );
}

#[test]
fn scenario_expect_100_continue() {
    let with = Headers::normalize_and_validate(&pairs(&[(b"Expect", b"100-continue")]), false)
        .unwrap();
    assert!(with.has_expect_100_continue());
    let upper = Headers::normalize_and_validate(&pairs(&[(b"EXPECT", b"100-CONTINUE")]), false)
        .unwrap();
    assert!(upper.has_expect_100_continue());
    let without = Headers::normalize_and_validate(&pairs(&[(b"Accept", b"x")]), false).unwrap();
    assert!(!without.has_expect_100_continue());
}

#[test]
fn new_add_len_and_item_at() {
    let mut h = Headers::new(Vec::new());
    assert_eq!(h.len(), 0);
    h.add(b"Host".to_vec(), b"host".to_vec(), b"example".to_vec());
    assert_eq!(h.len(), 1);
    let item = h.item_at(0);
    assert_eq!(item.0, b"Host".to_vec());
    assert_eq!(item.1, b"host".to_vec());
    assert_eq!(item.2, b"example".to_vec());
}
