use httphead::parse_header_field;
use httphead::parse_request_header;
use httphead::parse_request_line;
use httphead::InvalidHeaderField;
use httphead::InvalidRequestHeader;
use httphead::InvalidRequestLine;
use httphead::Version;
use httphead::LINE_CAP;

#[test]
fn test_parse_request_header() {
    let mut s = Vec::new();
    s.extend_from_slice(b"POST http://foo.example.com/bar?qux=19&qux=xyz HTTP/1.1\r\n");
    s.extend_from_slice(b"Host: foo.example.com\r\n");
    s.extend_from_slice(b"Content-Type: application/json\r\n");
    s.extend_from_slice(b"\r\n");

    let h = parse_request_header(&s[..]).unwrap();
    assert_eq!(h.method.as_bytes().as_slice(), b"POST");
    assert_eq!(h.uri.scheme().unwrap().as_slice(), b"http");
    assert_eq!(h.uri.host().unwrap().as_slice(), b"foo.example.com");
    assert_eq!(h.uri.port(), None);
    assert_eq!(h.uri.path().as_slice(), b"/bar");
    assert_eq!(h.uri.query().unwrap().as_slice(), b"qux=19&qux=xyz");
    assert_eq!(h.version, Version::Http11);
    assert_eq!(
        h.fields.get(b"host").unwrap().as_bytes().as_slice(),
        b"foo.example.com"
    );
    assert_eq!(
        h.fields.get(b"content-type").unwrap().as_bytes().as_slice(),
        b"application/json"
    );
}

#[test]
fn test_parse_request_line() {
    let s = b"OPTIONS * HTTP/1.1";
    let (m, u, v) = parse_request_line(s).unwrap();
    assert_eq!(m.as_bytes().as_slice(), b"OPTIONS");
    assert_eq!(u.path().as_slice(), b"*");
    assert_eq!(v, Version::Http11);

    let s = b"POST http://foo.example.com/bar?qux=19&qux=xyz HTTP/1.0";
    let (m, u, v) = parse_request_line(s).unwrap();
    assert_eq!(m.as_bytes().as_slice(), b"POST");
    assert_eq!(u.scheme().unwrap().as_slice(), b"http");
    assert_eq!(u.host().unwrap().as_slice(), b"foo.example.com");
    assert_eq!(u.port(), None);
    assert_eq!(u.path().as_slice(), b"/bar");
    assert_eq!(u.query().unwrap().as_slice(), b"qux=19&qux=xyz");
    assert_eq!(v, Version::Http10);
}

#[test]
fn test_parse_header_field() {
    let s = b"Content-Type: application/json; charset=\"\xAA\xBB\xCC\"";
    let (n, v) = parse_header_field(s).unwrap();
    assert_eq!(n.as_bytes().as_slice(), b"content-type");
    assert_eq!(
        v.as_bytes().as_slice(),
        b"application/json; charset=\"\xAA\xBB\xCC\"".as_slice()
    );
}

#[test]
fn request_line_rejects_double_space() {
    assert_eq!(parse_request_line(b"GET  / HTTP/1.1").unwrap_err(), InvalidRequestLine::Format);
    assert_eq!(parse_request_line(b"GET /  HTTP/1.1").unwrap_err(), InvalidRequestLine::Format);
}

#[test]
fn request_line_rejects_extra_tokens_and_padding() {
    assert_eq!(parse_request_line(b"GET / HTTP/1.1 ").unwrap_err(), InvalidRequestLine::Format);
    assert_eq!(parse_request_line(b"GET / HTTP/1.1 x").unwrap_err(), InvalidRequestLine::Format);
    assert_eq!(parse_request_line(b" GET / HTTP/1.1").unwrap_err(), InvalidRequestLine::Format);
    assert_eq!(parse_request_line(b"GET /\tHTTP/1.1").unwrap_err(), InvalidRequestLine::Format);
    assert_eq!(parse_request_line(b"GET /").unwrap_err(), InvalidRequestLine::Format);
}

#[test]
fn request_line_rejects_unrecognized_versions() {
    assert_eq!(parse_request_line(b"GET / HTTP/0.9").unwrap_err(), InvalidRequestLine::Version);
    assert_eq!(parse_request_line(b"GET / HTTP/2.0").unwrap_err(), InvalidRequestLine::Version);
    assert_eq!(parse_request_line(b"GET / http/1.1").unwrap_err(), InvalidRequestLine::Version);
}

#[test]
fn request_line_rejects_bad_method() {
    // `{` and `}` are not token characters.
    assert_eq!(parse_request_line(b"GE{T} / HTTP/1.1").unwrap_err(), InvalidRequestLine::Method);
}

#[test]
fn request_line_rejects_bad_target() {
    // `<` and `>` may not appear in a URI reference.
    assert_eq!(parse_request_line(b"GET /<> HTTP/1.1").unwrap_err(), InvalidRequestLine::Uri);
}

#[test]
fn header_field_trims_ows_and_keeps_interior() {
    let (n, v) = parse_header_field(b"X-Padded: \t one  two \t ").unwrap();
    assert_eq!(n.as_bytes().as_slice(), b"x-padded");
    assert_eq!(v.as_bytes().as_slice(), b"one  two");
}

#[test]
fn header_field_round_trip() {
    let name = b"x-custom-key";
    let value = b"some value; with=punctuation";
    let mut line = Vec::new();
    line.extend_from_slice(name);
    line.extend_from_slice(b":");
    line.extend_from_slice(value);
    let (n, v) = parse_header_field(&line[..]).unwrap();
    assert_eq!(n.as_bytes().as_slice(), name.as_slice());
    assert_eq!(v.as_bytes().as_slice(), value.as_slice());
}

#[test]
fn header_field_rejects_ws_before_colon() {
    assert_eq!(parse_header_field(b"Content-Type : text/plain").unwrap_err(), InvalidHeaderField::Format);
    assert_eq!(parse_header_field(b"Content-Type\t: text/plain").unwrap_err(), InvalidHeaderField::Format);
}

#[test]
fn header_field_rejects_empty_value_and_missing_colon() {
    assert_eq!(parse_header_field(b"Host:").unwrap_err(), InvalidHeaderField::Format);
    assert_eq!(parse_header_field(b"Host:   \t ").unwrap_err(), InvalidHeaderField::Format);
    assert_eq!(parse_header_field(b"Host").unwrap_err(), InvalidHeaderField::Format);
    assert_eq!(parse_header_field(b"").unwrap_err(), InvalidHeaderField::Format);
}

#[test]
fn header_rejects_whitespace_before_colon_line() {
    let s = b"GET / HTTP/1.1\r\nContent-Type : text/plain\r\n\r\n";
    assert_eq!(parse_request_header(&s[..]).unwrap_err(), InvalidRequestHeader::HeaderField(InvalidHeaderField::Format));
}

#[test]
fn header_rejects_bare_lf_and_missing_terminator() {
    assert_eq!(parse_request_header(b"GET / HTTP/1.1\n\r\n").unwrap_err(), InvalidRequestHeader::Format);
    // No blank line before the input ends.
    assert_eq!(parse_request_header(b"GET / HTTP/1.1\r\nHost: a\r\n").unwrap_err(), InvalidRequestHeader::Format);
    assert_eq!(parse_request_header(b"").unwrap_err(), InvalidRequestHeader::Format);
}

#[test]
fn header_wraps_request_line_errors() {
    assert_eq!(parse_request_header(b"GET / HTTP/3.0\r\n\r\n").unwrap_err(), InvalidRequestHeader::RequestLine(InvalidRequestLine::Version));
    assert_eq!(parse_request_header(b"GET /\r\n\r\n").unwrap_err(), InvalidRequestHeader::RequestLine(InvalidRequestLine::Format));
}

#[test]
fn header_duplicate_name_last_wins() {
    let s = b"GET / HTTP/1.1\r\nX-K: one\r\nX-Other: mid\r\nX-K: two\r\n\r\n";
    let h = parse_request_header(&s[..]).unwrap();
    assert_eq!(h.fields.len(), 2);
    assert_eq!(h.fields.get(b"x-k").unwrap().as_bytes().as_slice(), b"two");
    assert_eq!(
        h.fields.get(b"x-other").unwrap().as_bytes().as_slice(),
        b"mid"
    );
}

#[test]
fn header_field_lookup_is_case_insensitive() {
    let s = b"GET / HTTP/1.1\r\nHost: a.example\r\n\r\n";
    let h = parse_request_header(&s[..]).unwrap();
    assert_eq!(h.fields.get(b"HOST").unwrap().as_bytes().as_slice(), b"a.example");
    assert_eq!(h.fields.get(b"Host").unwrap().as_bytes().as_slice(), b"a.example");
    assert!(h.fields.get(b"hos").is_none());
}

#[test]
fn header_reparse_is_deterministic() {
    let s = b"GET /x?q=1 HTTP/1.1\r\nHost: a\r\n\r\n";
    let h1 = parse_request_header(&s[..]).unwrap();
    let h2 = parse_request_header(&s[..]).unwrap();
    assert_eq!(h1.method.as_bytes(), h2.method.as_bytes());
    assert_eq!(h1.uri.as_bytes(), h2.uri.as_bytes());
    assert_eq!(h1.uri.path(), h2.uri.path());
    assert_eq!(h1.version, h2.version);
    assert_eq!(h1.fields.len(), h2.fields.len());
    assert_eq!(
        h1.fields.get(b"host").unwrap().as_bytes(),
        h2.fields.get(b"host").unwrap().as_bytes()
    );
}

#[test]
fn line_of_cap_octets_without_crlf_fails() {
    // A first line of exactly LINE_CAP octets and no newline at all.
    let s = vec![b'a'; LINE_CAP];
    assert_eq!(parse_request_header(&s[..]).unwrap_err(), InvalidRequestHeader::Format);
    // Longer than the cap, still unterminated within it.
    let s = vec![b'a'; LINE_CAP + 100];
    assert_eq!(parse_request_header(&s[..]).unwrap_err(), InvalidRequestHeader::Format);
}

#[test]
fn line_just_under_cap_succeeds() {
    // A request line of LINE_CAP - 1 octets, its CRLF included.
    let path_len = LINE_CAP - 1 - b"GET /".len() - b" HTTP/1.1\r\n".len();
    let mut s = Vec::new();
    s.extend_from_slice(b"GET /");
    s.extend_from_slice(&vec![b'a'; path_len]);
    s.extend_from_slice(b" HTTP/1.1\r\n");
    assert_eq!(s.len(), LINE_CAP - 1);
    s.extend_from_slice(b"\r\n");
    let h = parse_request_header(&s[..]).unwrap();
    assert_eq!(h.method.as_bytes().as_slice(), b"GET");
    assert_eq!(h.uri.path().len(), 1 + path_len);
    assert_eq!(h.version, Version::Http11);
}

#[test]
fn line_reaching_cap_fails_even_with_crlf() {
    // The cap is enforced before the line ending is examined.
    let path_len = LINE_CAP - b"GET /".len() - b" HTTP/1.1\r\n".len();
    let mut s = Vec::new();
    s.extend_from_slice(b"GET /");
    s.extend_from_slice(&vec![b'a'; path_len]);
    s.extend_from_slice(b" HTTP/1.1\r\n");
    assert_eq!(s.len(), LINE_CAP);
    s.extend_from_slice(b"\r\n");
    assert_eq!(parse_request_header(&s[..]).unwrap_err(), InvalidRequestHeader::Format);
}

#[test]
fn version_literals_round_trip() {
    assert_eq!(Version::Http10.to_bytes(), b"HTTP/1.0".to_vec());
    assert_eq!(Version::Http11.to_bytes(), b"HTTP/1.1".to_vec());
    let (_, _, v) = parse_request_line(b"GET / HTTP/1.0").unwrap();
    assert_eq!(v.to_bytes(), b"HTTP/1.0".to_vec());
}

#[test]
fn opaque_high_bytes_pass_through_header_values() {
    let (n, v) = parse_header_field(b"X-Raw: \x80\xFF mixed \xAA").unwrap();
    assert_eq!(n.as_bytes().as_slice(), b"x-raw");
    assert_eq!(v.as_bytes().as_slice(), b"\x80\xFF mixed \xAA".as_slice());
}

#[test]
fn header_with_no_fields() {
    let h = parse_request_header(b"GET / HTTP/1.1\r\n\r\n").unwrap();
    assert_eq!(h.method.as_bytes().as_slice(), b"GET");
    assert_eq!(h.fields.len(), 0);
    assert!(h.uri.scheme().is_none());
    assert!(h.uri.host().is_none());
    assert_eq!(h.uri.path().as_slice(), b"/");
}

#[test]
fn header_rejects_folded_continuation_lines() {
    // An obs-fold continuation line starts with whitespace and matches
    // no header field grammar; it is rejected, not unfolded.
    let s = b"GET / HTTP/1.1\r\nX-A: one\r\n two\r\n\r\n";
    assert_eq!(
        parse_request_header(&s[..]).unwrap_err(),
        InvalidRequestHeader::HeaderField(InvalidHeaderField::Format)
    );
}
