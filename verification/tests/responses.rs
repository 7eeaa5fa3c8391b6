use tinyhttp::resolve::{resolve_path, resolve_resource};
use tinyhttp::response::{
    build_get_response, build_test_headers, file_does_not_exist, generate_404,
    invalid_request_response,
};
use tinyhttp::server::{route_request, respond, respond_invalid};
use tinyhttp::wire::parse_response_message;
use tinyhttp::request::Version;

#[test]
fn serializes_the_canonical_400() {
    let bytes = invalid_request_response().serialize();
    assert_eq!(bytes, b"HTTP/1.1 400 Invalid Request\r\n\r\n".to_vec());
}

#[test]
fn test_headers_carry_the_server_field() {
    let h = build_test_headers();
    assert_eq!(h.response_line.status_code, 200);
    assert!(matches!(h.response_line.http_version, Version::Http11));
    assert_eq!(h.response_line.reason_phrase, b"OK".to_vec());
    assert_eq!(h.header_fields.get(b"Server").unwrap(), &b"rust_test".to_vec());
}

#[test]
fn the_not_found_document_is_fixed() {
    assert_eq!(
        file_does_not_exist(),
        b"<!DOCTYPE html><html><head><title>GET response</title></head><body>Couldn't find file</body></html>".to_vec()
    );
}

#[test]
fn a_found_css_file_yields_an_exact_200() {
    let bytes = respond(b"webroot/a.css", Some(b"body".to_vec()));
    assert_eq!(
        bytes,
        b"HTTP/1.1 200 OK\r\nServer: rust_test\r\nContent-Type: text/css\r\nContent-Length: 4\r\n\r\nbody".to_vec()
    );
}

#[test]
fn a_missing_png_yields_a_404_with_its_requested_type() {
    let bytes = respond(b"webroot/missing.png", None);
    let body = file_does_not_exist();
    let mut expected = b"HTTP/1.1 404 Not Found\r\nContent-Type: image/png\r\nContent-Length: "
        .to_vec();
    expected.extend_from_slice(body.len().to_string().as_bytes());
    expected.extend_from_slice(b"\r\n\r\n");
    expected.extend_from_slice(&body);
    assert_eq!(bytes, expected);
}

#[test]
fn generate_404_keeps_the_classified_type() {
    let resp = generate_404(b"image/jpeg".to_vec());
    assert_eq!(resp.header_info.response_line.status_code, 404);
    assert_eq!(resp.header_info.response_line.reason_phrase, b"Not Found".to_vec());
    assert_eq!(
        resp.header_info.header_fields.get(b"Content-Type").unwrap(),
        &b"image/jpeg".to_vec()
    );
    let body = file_does_not_exist();
    assert_eq!(
        resp.header_info.header_fields.get(b"Content-Length").unwrap(),
        &body.len().to_string().into_bytes()
    );
    assert_eq!(resp.payload, Some(body));
}

fn serve(root: &[u8], request: &[u8], file: Option<Vec<u8>>) -> Vec<u8> {
    match route_request(root, request) {
        None => respond_invalid(),
        Some(path) => respond(&path, file),
    }
}

#[test]
fn a_full_cycle_serves_a_file() {
    let bytes = serve(b"webroot", b"GET /a.css HTTP/1.1\r\nHost: x\r\n\r\n", Some(b"p{}".to_vec()));
    assert_eq!(
        bytes,
        b"HTTP/1.1 200 OK\r\nServer: rust_test\r\nContent-Type: text/css\r\nContent-Length: 3\r\n\r\np{}".to_vec()
    );
}

#[test]
fn a_malformed_request_yields_the_400_bytes() {
    let bytes = serve(b"webroot", b"FETCH / HTTP/1.1\r\n\r\n", None);
    assert_eq!(bytes, b"HTTP/1.1 400 Invalid Request\r\n\r\n".to_vec());
}

#[test]
fn traversal_never_reaches_the_filesystem() {
    assert!(route_request(b"webroot", b"GET /../etc/passwd HTTP/1.1\r\n\r\n").is_none());
    assert!(route_request(b"webroot", b"GET /%2e%2e/etc/passwd HTTP/1.1\r\n\r\n").is_none());
}

#[test]
fn identical_requests_get_identical_bytes() {
    let req = b"GET /x.png HTTP/1.1\r\nHost: h\r\n\r\n";
    let first = serve(b"root", req, Some(b"PNG".to_vec()));
    let second = serve(b"root", req, Some(b"PNG".to_vec()));
    assert_eq!(first, second);
}

#[test]
fn a_serialized_response_retokenizes_to_itself() {
    let path = resolve_path(b"webroot", b"/style.css");
    let resource = resolve_resource(&path, Some(b"h1{color:red}".to_vec()));
    let response = build_get_response(resource);
    let bytes = response.serialize();
    let (line, fields) = parse_response_message(&bytes).unwrap();
    assert_eq!(line.status_code, 200);
    assert_eq!(line.reason_phrase, b"OK".to_vec());
    assert!(matches!(line.http_version, Version::Http11));
    assert_eq!(fields.get(b"Server").unwrap(), &b"rust_test".to_vec());
    assert_eq!(fields.get(b"Content-Type").unwrap(), &b"text/css".to_vec());
    assert_eq!(fields.get(b"Content-Length").unwrap(), &b"13".to_vec());
    assert_eq!(fields.len(), 3);
}

#[test]
fn a_404_retokenizes_to_itself() {
    let bytes = respond(b"webroot/gone.ico", None);
    let (line, fields) = parse_response_message(&bytes).unwrap();
    assert_eq!(line.status_code, 404);
    assert_eq!(line.reason_phrase, b"Not Found".to_vec());
    assert_eq!(fields.get(b"Content-Type").unwrap(), &b"image/x-icon".to_vec());
    assert_eq!(fields.len(), 2);
}

#[test]
fn reason_phrases_with_spaces_survive_the_round_trip() {
    let bytes = respond_invalid();
    let (line, fields) = parse_response_message(&bytes).unwrap();
    assert_eq!(line.status_code, 400);
    assert_eq!(line.reason_phrase, b"Invalid Request".to_vec());
    assert_eq!(fields.len(), 0);
}
