use httphead::parse_media_type;
use httphead::InvalidMediaType;

#[test]
fn test_parse_media_type() {
    let m = parse_media_type(b"application/json").unwrap();
    assert_eq!(m.type_, b"application".to_vec());
    assert_eq!(m.subtype, b"json".to_vec());
    assert_eq!(m.parameters.len(), 0);

    let m = parse_media_type(b"text/plain; charset=utf-8").unwrap();
    assert_eq!(m.type_, b"text".to_vec());
    assert_eq!(m.subtype, b"plain".to_vec());
    assert_eq!(m.parameters.len(), 1);
    assert_eq!(m.parameters.get(b"charset").unwrap().as_slice(), b"utf-8");

    let m = parse_media_type(b"text/plain ;charset=\"utf-8\"").unwrap();
    assert_eq!(m.type_, b"text".to_vec());
    assert_eq!(m.subtype, b"plain".to_vec());
    assert_eq!(m.parameters.len(), 1);
    assert_eq!(m.parameters.get(b"charset").unwrap().as_slice(), b"utf-8");
}

#[test]
fn media_type_quoted_param_keeps_raw_bytes() {
    let m = parse_media_type(b"application/json; charset=\"\xAA\xBB\xCC\"").unwrap();
    assert_eq!(m.type_, b"application".to_vec());
    assert_eq!(m.subtype, b"json".to_vec());
    assert_eq!(
        m.parameters.get(b"charset").unwrap().as_slice(),
        b"\xAA\xBB\xCC".as_slice()
    );
}

#[test]
fn media_type_quoted_param_drops_backslashes() {
    // Every backslash is removed; the byte after it is copied verbatim.
    let m = parse_media_type(b"a/b; k=\"x\\\"y\\\\z\"").unwrap();
    assert_eq!(m.parameters.get(b"k").unwrap().as_slice(), b"x\"yz");
}

#[test]
fn media_type_rejects_trailing_garbage() {
    assert_eq!(parse_media_type(b"text/plain x"), Err(InvalidMediaType));
    assert_eq!(parse_media_type(b"text/plain;"), Err(InvalidMediaType));
    assert_eq!(parse_media_type(b"text/plain; a"), Err(InvalidMediaType));
    assert_eq!(parse_media_type(b"text/plain; a="), Err(InvalidMediaType));
    assert_eq!(
        parse_media_type(b"text/plain; a=\"unterminated"),
        Err(InvalidMediaType)
    );
}

#[test]
fn media_type_rejects_bad_shape() {
    assert_eq!(parse_media_type(b""), Err(InvalidMediaType));
    assert_eq!(parse_media_type(b"text"), Err(InvalidMediaType));
    assert_eq!(parse_media_type(b"text/"), Err(InvalidMediaType));
    assert_eq!(parse_media_type(b"/plain"), Err(InvalidMediaType));
    assert_eq!(parse_media_type(b"te xt/plain"), Err(InvalidMediaType));
}

#[test]
fn media_type_params_are_case_sensitive_and_last_wins() {
    let m = parse_media_type(b"a/b; k=one; K=upper; k=two").unwrap();
    assert_eq!(m.parameters.len(), 2);
    assert_eq!(m.parameters.get(b"k").unwrap().as_slice(), b"two");
    assert_eq!(m.parameters.get(b"K").unwrap().as_slice(), b"upper");
    assert!(m.parameters.get(b"c").is_none());
}

#[test]
fn media_type_reparse_is_deterministic() {
    let s = b"text/plain; charset=\"utf-8\"; q=x";
    let m1 = parse_media_type(s).unwrap();
    let m2 = parse_media_type(s).unwrap();
    assert_eq!(m1, m2);
}
