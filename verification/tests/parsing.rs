use tinyhttp::request::{parse_http_message, Method, Version};

fn parse(bytes: &[u8]) -> Option<tinyhttp::request::HttpRequest> {
    parse_http_message(bytes)
}

#[test]
fn parses_a_plain_get() {
    let req = parse(b"GET /index.html HTTP/1.1\r\nHost: example\r\n\r\n").unwrap();
    assert!(matches!(req.header_info.request_line.method, Method::Get));
    assert_eq!(req.header_info.request_line.target, b"/index.html".to_vec());
    assert!(matches!(req.header_info.request_line.version, Version::Http11));
    assert!(req.payload.is_none());
}

#[test]
fn accepts_http_one_zero() {
    let req = parse(b"HEAD / HTTP/1.0\r\n\r\n").unwrap();
    assert!(matches!(req.header_info.request_line.method, Method::Head));
    assert!(matches!(req.header_info.request_line.version, Version::Http10));
}

#[test]
fn accepts_every_recognized_method() {
    for (name, _) in [
        (&b"GET"[..], ()),
        (&b"HEAD"[..], ()),
        (&b"POST"[..], ()),
        (&b"CONNECT"[..], ()),
        (&b"OPTIONS"[..], ()),
        (&b"TRACE"[..], ()),
    ] {
        let mut raw = name.to_vec();
        raw.extend_from_slice(b" / HTTP/1.1\r\n\r\n");
        assert!(parse(&raw).is_some(), "method should be accepted");
    }
}

#[test]
fn rejects_unrecognized_methods() {
    assert!(parse(b"PUT / HTTP/1.1\r\n\r\n").is_none());
    assert!(parse(b"DELETE / HTTP/1.1\r\n\r\n").is_none());
    assert!(parse(b"get / HTTP/1.1\r\n\r\n").is_none());
}

#[test]
fn rejects_wrong_token_counts() {
    assert!(parse(b"GET /\r\n\r\n").is_none());
    assert!(parse(b"GET / HTTP/1.1 extra\r\n\r\n").is_none());
    assert!(parse(b"\r\n\r\n").is_none());
}

#[test]
fn rejects_unaccepted_versions() {
    assert!(parse(b"GET / HTTP/2.0\r\n\r\n").is_none());
    assert!(parse(b"GET / http/1.1\r\n\r\n").is_none());
    assert!(parse(b"GET / HTTP/1.2\r\n\r\n").is_none());
}

#[test]
fn percent_decodes_the_target() {
    let req = parse(b"GET /%61bc.css HTTP/1.1\r\n\r\n").unwrap();
    assert_eq!(req.header_info.request_line.target, b"/abc.css".to_vec());
}

#[test]
fn rejects_traversal_literal_and_encoded() {
    assert!(parse(b"GET /../etc/passwd HTTP/1.1\r\n\r\n").is_none());
    assert!(parse(b"GET /%2e%2e/etc/passwd HTTP/1.1\r\n\r\n").is_none());
}

#[test]
fn rejects_uppercase_encoded_traversal() {
    assert!(parse(b"GET /%2E%2E/x HTTP/1.1\r\n\r\n").is_none());
}

#[test]
fn rejects_a_truncated_escape() {
    assert!(parse(b"GET /a%4 HTTP/1.1\r\n\r\n").is_none());
    assert!(parse(b"GET /a% HTTP/1.1\r\n\r\n").is_none());
}

#[test]
fn rejects_undecodable_target() {
    assert!(parse(b"GET /%FF HTTP/1.1\r\n\r\n").is_none());
}

#[test]
fn rejects_a_malformed_escape() {
    assert!(parse(b"GET /a%zz HTTP/1.1\r\n\r\n").is_none());
    assert!(parse(b"GET /a%4x HTTP/1.1\r\n\r\n").is_none());
}

#[test]
fn splits_header_fields_at_the_first_colon() {
    let req = parse(b"GET / HTTP/1.1\r\nHost: a:b:c\r\n\r\n").unwrap();
    let v = req.header_info.header_fields.get(b"Host").unwrap();
    assert_eq!(v, &b"a:b:c".to_vec());
}

#[test]
fn trims_header_values() {
    let req = parse(b"GET / HTTP/1.1\r\nHost:   padded value  \r\n\r\n").unwrap();
    let v = req.header_info.header_fields.get(b"Host").unwrap();
    assert_eq!(v, &b"padded value".to_vec());
}

#[test]
fn later_duplicate_header_wins() {
    let req = parse(b"GET / HTTP/1.1\r\nX: one\r\nX: two\r\n\r\n").unwrap();
    let v = req.header_info.header_fields.get(b"X").unwrap();
    assert_eq!(v, &b"two".to_vec());
    assert_eq!(req.header_info.header_fields.len(), 1);
}

#[test]
fn keeps_a_colonless_line_as_a_bare_name() {
    let req = parse(b"GET / HTTP/1.1\r\nNoColonHere\r\n\r\n").unwrap();
    let v = req.header_info.header_fields.get(b"NoColonHere").unwrap();
    assert_eq!(v, &b"".to_vec());
}

#[test]
fn truncates_the_body_to_content_length() {
    let req = parse(b"POST / HTTP/1.1\r\nContent-Length: 3\r\n\r\nabcdef").unwrap();
    assert_eq!(req.payload, Some(b"abc".to_vec()));
}

#[test]
fn never_pads_a_short_body() {
    let req = parse(b"POST / HTTP/1.1\r\nContent-Length: 100\r\n\r\nab").unwrap();
    assert_eq!(req.payload, Some(b"ab".to_vec()));
}

#[test]
fn a_huge_content_length_keeps_the_whole_body() {
    let req = parse(
        b"POST / HTTP/1.1\r\nContent-Length: 99999999999999999999999999\r\n\r\nab",
    )
    .unwrap();
    assert_eq!(req.payload, Some(b"ab".to_vec()));
}

#[test]
fn drops_the_body_without_content_length() {
    let req = parse(b"POST / HTTP/1.1\r\n\r\nabcdef").unwrap();
    assert!(req.payload.is_none());
}

#[test]
fn drops_the_body_for_a_non_numeric_length() {
    let req = parse(b"POST / HTTP/1.1\r\nContent-Length: many\r\n\r\nabcdef").unwrap();
    assert!(req.payload.is_none());
}

#[test]
fn treats_a_message_without_blank_line_as_header_only() {
    let req = parse(b"GET / HTTP/1.1\r\nContent-Length: 3").unwrap();
    assert!(req.payload.is_none());
}

#[test]
fn zero_content_length_gives_an_empty_body() {
    let req = parse(b"POST / HTTP/1.1\r\nContent-Length: 0\r\n\r\nabc").unwrap();
    assert_eq!(req.payload, Some(b"".to_vec()));
}
