//! The request side of the pipeline: the request-line grammar (method,
//! target, version), header assembly, and the message assembler that
//! attaches a `Content-Length`-bounded body.

use vstd::prelude::*;
use crate::bytes::{slice_to_vec, subrange_vec, eq_bytes};
use crate::headers::{
    HeaderMap, PairView, assemble, header_pair_of, map_get, assemble_header_lines,
};
use crate::numbers::{is_digits, dec_value, capped, parse_decimal};
use crate::tokenize::{split_on, sp, crlf, head_of, body_of, split_on_vec, split_head_body,
    crlf_vec, lemma_split_on_nonempty};
use crate::uri::{uri_ok, decoded_target, valid_uri};

verus! {

/// Request methods the validator recognizes, and `Unknown` for the rest.
/// The validator rejects a request line whose method is `Unknown`.
#[derive(Clone, Copy, PartialEq, Eq, Structural, Debug)]
pub enum Method {
    Get,
    Head,
    Post,
    Connect,
    Options,
    Trace,
    Unknown,
}

/// The two protocol versions the validator accepts.
#[derive(Clone, Copy, PartialEq, Eq, Structural, Debug)]
pub enum Version {
    Http11,
    Http10,
}

/// Wire spelling of each recognized method; `Unknown` has none.
pub open spec fn method_bytes(m: Method) -> Seq<u8> {
    match m {
        Method::Get => seq![71u8, 69, 84],
        Method::Head => seq![72u8, 69, 65, 68],
        Method::Post => seq![80u8, 79, 83, 84],
        Method::Connect => seq![67u8, 79, 78, 78, 69, 67, 84],
        Method::Options => seq![79u8, 80, 84, 73, 79, 78, 83],
        Method::Trace => seq![84u8, 82, 65, 67, 69],
        Method::Unknown => Seq::empty(),
    }
}

/// Classify a method token by exact, case-sensitive comparison.
pub open spec fn method_of(tok: Seq<u8>) -> Method {
    if tok == method_bytes(Method::Get) {
        Method::Get
    } else if tok == method_bytes(Method::Head) {
        Method::Head
    } else if tok == method_bytes(Method::Post) {
        Method::Post
    } else if tok == method_bytes(Method::Connect) {
        Method::Connect
    } else if tok == method_bytes(Method::Options) {
        Method::Options
    } else if tok == method_bytes(Method::Trace) {
        Method::Trace
    } else {
        Method::Unknown
    }
}

/// Wire spelling of each accepted protocol version.
pub open spec fn version_bytes(v: Version) -> Seq<u8> {
    match v {
        Version::Http11 => seq![72u8, 84, 84, 80, 47, 49, 46, 49],
        Version::Http10 => seq![72u8, 84, 84, 80, 47, 49, 46, 48],
    }
}

/// Wire spelling of a version as a vector.
pub fn version_vec(v: Version) -> (r: Vec<u8>)
    ensures
        r@ == version_bytes(v),
{
    match v {
        Version::Http11 => {
            let a: [u8; 8] = [72, 84, 84, 80, 47, 49, 46, 49];
            proof {
                assert(a@ =~= version_bytes(Version::Http11));
            }
            slice_to_vec(a.as_slice())
        },
        Version::Http10 => {
            let a: [u8; 8] = [72, 84, 84, 80, 47, 49, 46, 48];
            proof {
                assert(a@ =~= version_bytes(Version::Http10));
            }
            slice_to_vec(a.as_slice())
        },
    }
}

/// Classify a version token by exact comparison, `None` for any other.
pub open spec fn version_of(tok: Seq<u8>) -> Option<Version> {
    if tok == version_bytes(Version::Http11) {
        Some(Version::Http11)
    } else if tok == version_bytes(Version::Http10) {
        Some(Version::Http10)
    } else {
        None
    }
}

/// The `Content-Length` field name.
pub open spec fn content_length_key() -> Seq<u8> {
    seq![67u8, 111, 110, 116, 101, 110, 116, 45, 76, 101, 110, 103, 116, 104]
}

/// The `Content-Length` field name as a vector.
pub fn content_length_key_vec() -> (r: Vec<u8>)
    ensures
        r@ == content_length_key(),
{
    let a: [u8; 14] = [67, 111, 110, 116, 101, 110, 116, 45, 76, 101, 110, 103, 116, 104];
    proof {
        assert(a@ =~= content_length_key());
    }
    slice_to_vec(a.as_slice())
}

/// A validated request line.
pub struct RequestLine {
    pub method: Method,
    pub target: Vec<u8>,
    pub version: Version,
}

/// Mathematical value of a validated request line.
pub ghost struct RequestLineView {
    pub method: Method,
    pub target: Seq<u8>,
    pub version: Version,
}

impl View for RequestLine {
    type V = RequestLineView;

    open spec fn view(&self) -> RequestLineView {
        RequestLineView { method: self.method, target: self.target@, version: self.version }
    }
}

/// The request line and the header fields of one message.
pub struct RequestHeader {
    pub request_line: RequestLine,
    pub header_fields: HeaderMap,
}

/// Mathematical value of a request header.
pub ghost struct RequestHeaderView {
    pub request_line: RequestLineView,
    pub header_fields: Seq<PairView>,
}

impl View for RequestHeader {
    type V = RequestHeaderView;

    open spec fn view(&self) -> RequestHeaderView {
        RequestHeaderView {
            request_line: self.request_line@,
            header_fields: self.header_fields@,
        }
    }
}

/// One parsed request message: header information and optional body.
pub struct HttpRequest {
    pub header_info: RequestHeader,
    pub payload: Option<Vec<u8>>,
}

/// Mathematical value of a parsed request message.
pub ghost struct HttpRequestView {
    pub header_info: RequestHeaderView,
    pub payload: Option<Seq<u8>>,
}

impl View for HttpRequest {
    type V = HttpRequestView;

    open spec fn view(&self) -> HttpRequestView {
        HttpRequestView {
            header_info: self.header_info@,
            payload: match self.payload {
                None => None,
                Some(p) => Some(p@),
            },
        }
    }
}

/// The request-line grammar: exactly three space-separated tokens, a
/// recognized method, a target that decodes and passes the traversal
/// guard, and an accepted version. Anything else is rejected.
pub open spec fn parse_request_line_spec(line: Seq<u8>) -> Option<RequestLineView> {
    let toks = split_on(line, sp());
    if toks.len() != 3 {
        None
    } else if method_of(toks[0]) is Unknown {
        None
    } else if !uri_ok(toks[1]) {
        None
    } else {
        match version_of(toks[2]) {
            None => None,
            Some(v) => Some(
                RequestLineView {
                    method: method_of(toks[0]),
                    target: decoded_target(toks[1]),
                    version: v,
                },
            ),
        }
    }
}

/// The header-block grammar: the first CRLF-separated line is the request
/// line, every further line is a header field, inserted in order.
pub open spec fn parse_header_information_spec(head: Seq<u8>) -> Option<RequestHeaderView> {
    let lines = split_on(head, crlf());
    match parse_request_line_spec(lines[0]) {
        None => None,
        Some(rl) => Some(
            RequestHeaderView {
                request_line: rl,
                header_fields: assemble(
                    lines.skip(1).map_values(|l: Seq<u8>| header_pair_of(l)),
                ),
            },
        ),
    }
}

/// The body attached to a message: present exactly when a
/// `Content-Length` field parses as a non-negative integer and a body
/// block followed the blank line; the block is truncated to that many
/// bytes and never padded.
pub open spec fn payload_of(fields: Seq<PairView>, body: Option<Seq<u8>>) -> Option<Seq<u8>> {
    match map_get(fields, content_length_key()) {
        None => None,
        Some(v) => if !is_digits(v) {
            None
        } else {
            match body {
                None => None,
                Some(b) => if dec_value(v) >= b.len() {
                    Some(b)
                } else {
                    Some(b.subrange(0, dec_value(v) as int))
                },
            }
        },
    }
}

/// The whole message grammar: header block up to the first blank line,
/// then the optional body.
pub open spec fn parse_http_message_spec(req: Seq<u8>) -> Option<HttpRequestView> {
    match parse_header_information_spec(head_of(req)) {
        None => None,
        Some(h) => Some(
            HttpRequestView {
                header_info: h,
                payload: payload_of(h.header_fields, body_of(req)),
            },
        ),
    }
}

/// Classify a method token.
fn match_method(tok: &[u8]) -> (m: Method)
    ensures
        m == method_of(tok@),
{
    let get: [u8; 3] = [71, 69, 84];
    let head: [u8; 4] = [72, 69, 65, 68];
    let post: [u8; 4] = [80, 79, 83, 84];
    let connect: [u8; 7] = [67, 79, 78, 78, 69, 67, 84];
    let options: [u8; 7] = [79, 80, 84, 73, 79, 78, 83];
    let trace: [u8; 5] = [84, 82, 65, 67, 69];
    proof {
        assert(get@ =~= method_bytes(Method::Get));
        assert(head@ =~= method_bytes(Method::Head));
        assert(post@ =~= method_bytes(Method::Post));
        assert(connect@ =~= method_bytes(Method::Connect));
        assert(options@ =~= method_bytes(Method::Options));
        assert(trace@ =~= method_bytes(Method::Trace));
    }
    if eq_bytes(tok, get.as_slice()) {
        Method::Get
    } else if eq_bytes(tok, head.as_slice()) {
        Method::Head
    } else if eq_bytes(tok, post.as_slice()) {
        Method::Post
    } else if eq_bytes(tok, connect.as_slice()) {
        Method::Connect
    } else if eq_bytes(tok, options.as_slice()) {
        Method::Options
    } else if eq_bytes(tok, trace.as_slice()) {
        Method::Trace
    } else {
        Method::Unknown
    }
}

/// Classify a version token.
pub fn match_version(tok: &[u8]) -> (v: Option<Version>)
    ensures
        v == version_of(tok@),
{
    let v11: [u8; 8] = [72, 84, 84, 80, 47, 49, 46, 49];
    let v10: [u8; 8] = [72, 84, 84, 80, 47, 49, 46, 48];
    proof {
        assert(v11@ =~= version_bytes(Version::Http11));
        assert(v10@ =~= version_bytes(Version::Http10));
    }
    if eq_bytes(tok, v11.as_slice()) {
        Some(Version::Http11)
    } else if eq_bytes(tok, v10.as_slice()) {
        Some(Version::Http10)
    } else {
        None
    }
}

/// Validate and parse a request line.
pub fn parse_request_line(header_info: &[u8]) -> (r: Option<RequestLine>)
    ensures
        match r {
            Some(rl) => parse_request_line_spec(header_info@) == Some(rl@),
            None => parse_request_line_spec(header_info@) is None,
        },
{
    let mut sep: Vec<u8> = Vec::new();
    sep.push(crate::bytes::SP);
    proof {
        assert(sep@ =~= sp());
    }
    let tokens = split_on_vec(header_info, sep.as_slice());
    let ghost toks = split_on(header_info@, sp());
    proof {
        assert(tokens@.len() == toks.len());
        assert forall|i: int| 0 <= i < toks.len() implies tokens@[i]@ == toks[i] by {
            assert(tokens.deep_view()[i] =~= tokens@[i]@);
        }
    }
    if tokens.len() != 3 {
        return None;
    }
    let method = match_method(tokens[0].as_slice());
    if matches!(method, Method::Unknown) {
        return None;
    }
    let target = match valid_uri(tokens[1].as_slice()) {
        None => {
            return None;
        },
        Some(t) => t,
    };
    match match_version(tokens[2].as_slice()) {
        None => None,
        Some(version) => Some(RequestLine { method, target, version }),
    }
}

/// Parse the header block: the request line, then every header field.
pub fn parse_header_information(headers: &[u8]) -> (r: Option<RequestHeader>)
    ensures
        match r {
            Some(h) => parse_header_information_spec(headers@) == Some(h@),
            None => parse_header_information_spec(headers@) is None,
        },
{
    let sep = crlf_vec();
    let lines = split_on_vec(headers, sep.as_slice());
    let ghost ls = split_on(headers@, crlf());
    proof {
        lemma_split_on_nonempty(headers@, crlf());
        assert(lines@.len() == ls.len());
        assert(lines.deep_view()[0] =~= lines@[0]@);
    }
    match parse_request_line(lines[0].as_slice()) {
        None => None,
        Some(req_line) => {
            let mut map = HeaderMap::new();
            assemble_header_lines(&mut map, &lines, 1);
            proof {
                assert(lines.deep_view().skip(1) =~~= ls.skip(1));
            }
            Some(RequestHeader { request_line: req_line, header_fields: map })
        },
    }
}

/// Parse one raw request message: split off the header block, validate
/// it, and attach the `Content-Length`-bounded body.
pub fn parse_http_message(request: &[u8]) -> (r: Option<HttpRequest>)
    ensures
        match r {
            Some(m) => parse_http_message_spec(request@) == Some(m@),
            None => parse_http_message_spec(request@) is None,
        },
{
    let (head, body) = split_head_body(request);
    match parse_header_information(head.as_slice()) {
        None => None,
        Some(header_info) => {
            let key = content_length_key_vec();
            let payload: Option<Vec<u8>> = match header_info.header_fields.get(key.as_slice()) {
                None => None,
                Some(v) => match parse_decimal(v.as_slice()) {
                    None => None,
                    Some(n) => match body {
                        None => None,
                        Some(b) => {
                            let blen = b.len();
                            if n >= blen {
                                proof {
                                    if dec_value(v@) < b@.len() {
                                        assert(capped(dec_value(v@), usize::MAX as nat)
                                            == dec_value(v@));
                                    }
                                }
                                Some(b)
                            } else {
                                proof {
                                    assert(capped(dec_value(v@), usize::MAX as nat) == n);
                                    assert(dec_value(v@) == n);
                                }
                                Some(subrange_vec(b.as_slice(), 0, n))
                            }
                        },
                    },
                },
            };
            Some(HttpRequest { header_info, payload })
        },
    }
}

} // verus!
