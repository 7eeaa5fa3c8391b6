//! The response side of the pipeline: building a response message from a
//! resolution outcome (200 with the file's bytes, 404 with a fixed
//! document, 400 for a malformed request) and serializing it onto the
//! wire: status line, header lines in insertion order, a blank line, then
//! the body verbatim.

use vstd::prelude::*;
use vstd::string::StringSliceAdditionalSpecFns;
use crate::bytes::{append_bytes, slice_to_vec, CR, LF, SP, COLON};
use crate::headers::{HeaderMap, PairView, find_key};
use crate::numbers::dec_rep;
use crate::request::{Version, version_bytes};
use crate::resolve::ResolvedResourceView;
use crate::tokenize::{crlf, sp, colon};

verus! {

/// The status line of a response.
pub struct ResponseLine {
    pub http_version: Version,
    pub status_code: u16,
    pub reason_phrase: Vec<u8>,
}

/// Mathematical value of a status line.
pub ghost struct ResponseLineView {
    pub http_version: Version,
    pub status_code: u16,
    pub reason_phrase: Seq<u8>,
}

impl View for ResponseLine {
    type V = ResponseLineView;

    open spec fn view(&self) -> ResponseLineView {
        ResponseLineView {
            http_version: self.http_version,
            status_code: self.status_code,
            reason_phrase: self.reason_phrase@,
        }
    }
}

/// The status line and header fields of a response.
pub struct ResponseHeader {
    pub response_line: ResponseLine,
    pub header_fields: HeaderMap,
}

/// Mathematical value of a response header.
pub ghost struct ResponseHeaderView {
    pub response_line: ResponseLineView,
    pub header_fields: Seq<PairView>,
}

impl View for ResponseHeader {
    type V = ResponseHeaderView;

    open spec fn view(&self) -> ResponseHeaderView {
        ResponseHeaderView {
            response_line: self.response_line@,
            header_fields: self.header_fields@,
        }
    }
}

/// One response message: header information and optional body.
pub struct HttpResponse {
    pub header_info: ResponseHeader,
    pub payload: Option<Vec<u8>>,
}

/// Mathematical value of a response message.
pub ghost struct HttpResponseView {
    pub header_info: ResponseHeaderView,
    pub payload: Option<Seq<u8>>,
}

impl View for HttpResponse {
    type V = HttpResponseView;

    open spec fn view(&self) -> HttpResponseView {
        HttpResponseView {
            header_info: self.header_info@,
            payload: match self.payload {
                None => None,
                Some(p) => Some(p@),
            },
        }
    }
}

/// Wire form of a status line: version, code and reason separated by
/// single spaces, terminated by CRLF.
pub open spec fn render_status_line(l: ResponseLineView) -> Seq<u8> {
    version_bytes(l.http_version) + sp() + dec_rep(l.status_code as nat) + sp()
        + l.reason_phrase + crlf()
}

/// Wire form of one header field line: `name: value` terminated by CRLF.
pub open spec fn render_field_line(p: PairView) -> Seq<u8> {
    p.0 + colon() + sp() + p.1 + crlf()
}

/// Wire form of all header field lines, in order.
pub open spec fn render_fields(fs: Seq<PairView>) -> Seq<u8>
    decreases fs.len(),
{
    if fs.len() == 0 {
        Seq::empty()
    } else {
        render_field_line(fs[0]) + render_fields(fs.skip(1))
    }
}

/// Rendering distributes over concatenation of field lists.
pub proof fn lemma_render_fields_concat(a: Seq<PairView>, b: Seq<PairView>)
    ensures
        render_fields(a + b) == render_fields(a) + render_fields(b),
    decreases a.len(),
{
    if a.len() == 0 {
        assert(a + b =~= b);
        assert(render_fields(a) + render_fields(b) =~= render_fields(b));
    } else {
        assert((a + b).skip(1) =~= a.skip(1) + b);
        lemma_render_fields_concat(a.skip(1), b);
        assert((a + b)[0] == a[0]);
        assert(render_field_line(a[0]) + (render_fields(a.skip(1)) + render_fields(b)) =~= (
        render_field_line(a[0]) + render_fields(a.skip(1))) + render_fields(b));
    }
}

/// Wire form of a whole response: status line, header lines, a blank
/// line, then the body verbatim.
pub open spec fn render_response(r: HttpResponseView) -> Seq<u8> {
    render_status_line(r.header_info.response_line) + render_fields(r.header_info.header_fields)
        + crlf() + (match r.payload {
        None => Seq::empty(),
        Some(b) => b,
    })
}

impl HttpResponse {
    /// Render this response onto the wire.
    pub fn serialize(&self) -> (r: Vec<u8>)
        ensures
            r@ == render_response(self@),
    {
        let mut out: Vec<u8> = crate::request::version_vec(self.header_info.response_line.http_version);
        out.push(SP);
        let code = crate::numbers::to_decimal(self.header_info.response_line.status_code as u64);
        append_bytes(&mut out, code.as_slice());
        out.push(SP);
        append_bytes(&mut out, self.header_info.response_line.reason_phrase.as_slice());
        out.push(CR);
        out.push(LF);
        let ghost sl = render_status_line(self.header_info.response_line@);
        proof {
            assert(out@ =~= sl);
        }
        let ghost fs = self.header_info.header_fields@;
        let n = self.header_info.header_fields.len();
        let mut i: usize = 0;
        while i < n
            invariant
                0 <= i <= n,
                n == fs.len(),
                self.header_info.header_fields@ == fs,
                out@ == sl + render_fields(fs.subrange(0, i as int)),
            decreases n - i,
        {
            let (name, value) = self.header_info.header_fields.field_at(i);
            let ghost before = out@;
            append_bytes(&mut out, name.as_slice());
            out.push(COLON);
            out.push(SP);
            append_bytes(&mut out, value.as_slice());
            out.push(CR);
            out.push(LF);
            proof {
                assert(out@ =~= before + render_field_line(fs[i as int]));
                assert(fs.subrange(0, i + 1) =~= fs.subrange(0, i as int) + seq![fs[i as int]]);
                lemma_render_fields_concat(fs.subrange(0, i as int), seq![fs[i as int]]);
                assert(seq![fs[i as int]].skip(1) =~= Seq::<PairView>::empty());
                assert(render_fields(Seq::<PairView>::empty()) =~= Seq::<u8>::empty());
                assert(render_fields(seq![fs[i as int]]) =~= render_field_line(fs[i as int]));
                assert(out@ =~= sl + render_fields(fs.subrange(0, i + 1)));
            }
            i = i + 1;
        }
        proof {
            assert(fs.subrange(0, fs.len() as int) =~= fs);
        }
        out.push(CR);
        out.push(LF);
        match &self.payload {
            None => {
                proof {
                    assert(out@ =~= render_response(self@));
                }
            },
            Some(b) => {
                append_bytes(&mut out, b.as_slice());
                proof {
                    assert(out@ =~= render_response(self@));
                }
            },
        }
        out
    }
}

/// The `Content-Type` field name.
pub open spec fn content_type_key() -> Seq<u8> {
    seq![67u8, 111, 110, 116, 101, 110, 116, 45, 84, 121, 112, 101]
}

/// The `Server` field name.
pub open spec fn server_key() -> Seq<u8> {
    seq![83u8, 101, 114, 118, 101, 114]
}

/// The `Server` field value `rust_test`.
pub open spec fn server_value() -> Seq<u8> {
    seq![114u8, 117, 115, 116, 95, 116, 101, 115, 116]
}

/// The reason phrase `OK`.
pub open spec fn ok_reason() -> Seq<u8> {
    seq![79u8, 75]
}

/// The reason phrase `Not Found`.
pub open spec fn not_found_reason() -> Seq<u8> {
    seq![78u8, 111, 116, 32, 70, 111, 117, 110, 100]
}

/// The reason phrase `Invalid Request`.
pub open spec fn invalid_reason() -> Seq<u8> {
    seq![73u8, 110, 118, 97, 108, 105, 100, 32, 82, 101, 113, 117, 101, 115, 116]
}

/// The fixed document served with every 404.
pub open spec fn not_found_body() -> Seq<u8> {
    "<!DOCTYPE html><html><head><title>GET response</title></head><body>Couldn't find file</body></html>".spec_bytes()
}

/// The fixed document served with every 404.
pub fn file_does_not_exist() -> (r: Vec<u8>)
    ensures
        r@ == not_found_body(),
{
    let s: &str = "<!DOCTYPE html><html><head><title>GET response</title></head><body>Couldn't find file</body></html>";
    slice_to_vec(s.as_bytes())
}

/// The `Content-Type` field name as a vector.
pub fn content_type_key_vec() -> (r: Vec<u8>)
    ensures
        r@ == content_type_key(),
{
    let a: [u8; 12] = [67, 111, 110, 116, 101, 110, 116, 45, 84, 121, 112, 101];
    proof {
        assert(a@ =~= content_type_key());
    }
    slice_to_vec(a.as_slice())
}

/// A fresh 200 OK response header carrying the fixed `Server` field.
pub open spec fn test_header_view() -> ResponseHeaderView {
    ResponseHeaderView {
        response_line: ResponseLineView {
            http_version: Version::Http11,
            status_code: 200,
            reason_phrase: ok_reason(),
        },
        header_fields: seq![(server_key(), server_value())],
    }
}

/// Build the 200 OK response header skeleton with its `Server` field.
pub fn build_test_headers() -> (r: ResponseHeader)
    ensures
        r@ == test_header_view(),
{
    let reason: [u8; 2] = [79, 75];
    proof {
        assert(reason@ =~= ok_reason());
    }
    let skey: [u8; 6] = [83, 101, 114, 118, 101, 114];
    let sval: [u8; 9] = [114, 117, 115, 116, 95, 116, 101, 115, 116];
    proof {
        assert(skey@ =~= server_key());
        assert(sval@ =~= server_value());
    }
    let mut header_fields = HeaderMap::new();
    header_fields.insert(slice_to_vec(skey.as_slice()), slice_to_vec(sval.as_slice()));
    proof {
        assert(header_fields@ =~= seq![(server_key(), server_value())]);
    }
    ResponseHeader {
        response_line: ResponseLine {
            http_version: Version::Http11,
            status_code: 200,
            reason_phrase: slice_to_vec(reason.as_slice()),
        },
        header_fields,
    }
}

/// The canonical 404 response for a request whose resolved path could not
/// be served: the MIME type the request asked for, the fixed not-found
/// document, and its length.
pub open spec fn not_found_response(content_type: Seq<u8>) -> HttpResponseView {
    HttpResponseView {
        header_info: ResponseHeaderView {
            response_line: ResponseLineView {
                http_version: Version::Http11,
                status_code: 404,
                reason_phrase: not_found_reason(),
            },
            header_fields: seq![
                (content_type_key(), content_type),
                (crate::request::content_length_key(), dec_rep(not_found_body().len())),
            ],
        },
        payload: Some(not_found_body()),
    }
}

/// Build the canonical 404 response, keeping the classified MIME type.
pub fn generate_404(content_type: Vec<u8>) -> (r: HttpResponse)
    ensures
        r@ == not_found_response(content_type@),
{
    let reason: [u8; 9] = [78, 111, 116, 32, 70, 111, 117, 110, 100];
    proof {
        assert(reason@ =~= not_found_reason());
    }
    let body = file_does_not_exist();
    let length = crate::numbers::to_decimal(body.len() as u64);
    let mut header_fields = HeaderMap::new();
    let ghost ct = content_type@;
    header_fields.insert(content_type_key_vec(), content_type);
    proof {
        assert(header_fields@ =~= seq![(content_type_key(), ct)]);
    }
    header_fields.insert(crate::request::content_length_key_vec(), length);
    proof {
        let s1 = seq![(content_type_key(), ct)];
        assert(s1[0].0 != crate::request::content_length_key()) by {
            assert(content_type_key().len() != crate::request::content_length_key().len());
        }
        assert(s1.skip(1) =~= Seq::<PairView>::empty());
        assert(find_key(Seq::<PairView>::empty(), crate::request::content_length_key()) is None);
        assert(find_key(s1, crate::request::content_length_key()) is None);
        assert(header_fields@ =~= seq![
            (content_type_key(), ct),
            (crate::request::content_length_key(), dec_rep(not_found_body().len())),
        ]);
    }
    HttpResponse {
        header_info: ResponseHeader {
            response_line: ResponseLine {
                http_version: Version::Http11,
                status_code: 404,
                reason_phrase: slice_to_vec(reason.as_slice()),
            },
            header_fields,
        },
        payload: Some(body),
    }
}

/// The canonical 400 response for a malformed request: no header fields
/// and no body.
pub open spec fn invalid_request_response_view() -> HttpResponseView {
    HttpResponseView {
        header_info: ResponseHeaderView {
            response_line: ResponseLineView {
                http_version: Version::Http11,
                status_code: 400,
                reason_phrase: invalid_reason(),
            },
            header_fields: Seq::empty(),
        },
        payload: None,
    }
}

/// Build the canonical 400 response.
pub fn invalid_request_response() -> (r: HttpResponse)
    ensures
        r@ == invalid_request_response_view(),
{
    let reason: [u8; 15] = [73, 110, 118, 97, 108, 105, 100, 32, 82, 101, 113, 117, 101, 115, 116];
    proof {
        assert(reason@ =~= invalid_reason());
    }
    HttpResponse {
        header_info: ResponseHeader {
            response_line: ResponseLine {
                http_version: Version::Http11,
                status_code: 400,
                reason_phrase: slice_to_vec(reason.as_slice()),
            },
            header_fields: HeaderMap::new(),
        },
        payload: None,
    }
}

/// The response served for a resolution outcome: 200 OK with the file's
/// bytes, their length, and the classified MIME type when the resource
/// was found; the canonical 404 otherwise.
pub open spec fn response_for(res: ResolvedResourceView) -> HttpResponseView {
    if res.found {
        HttpResponseView {
            header_info: ResponseHeaderView {
                response_line: ResponseLineView {
                    http_version: Version::Http11,
                    status_code: 200,
                    reason_phrase: ok_reason(),
                },
                header_fields: seq![
                    (server_key(), server_value()),
                    (content_type_key(), res.content_type),
                    (crate::request::content_length_key(), dec_rep(res.bytes.len())),
                ],
            },
            payload: Some(res.bytes),
        }
    } else {
        not_found_response(res.content_type)
    }
}

/// Build the response for a resolution outcome.
pub fn build_get_response(resource: crate::resolve::ResolvedResource) -> (r: HttpResponse)
    ensures
        r@ == response_for(resource@),
{
    if resource.found {
        let mut header_info = build_test_headers();
        let ghost ct = resource.content_type@;
        let ghost blen = resource.bytes@.len();
        let length = crate::numbers::to_decimal(resource.bytes.len() as u64);
        header_info.header_fields.insert(content_type_key_vec(), resource.content_type);
        proof {
            let s1 = seq![(server_key(), server_value())];
            assert(s1[0].0 != content_type_key()) by {
                assert(server_key().len() != content_type_key().len());
            }
            assert(s1.skip(1) =~= Seq::<PairView>::empty());
            assert(find_key(Seq::<PairView>::empty(), content_type_key()) is None);
            assert(find_key(s1, content_type_key()) is None);
            assert(header_info.header_fields@ =~= seq![
                (server_key(), server_value()),
                (content_type_key(), ct),
            ]);
        }
        header_info.header_fields.insert(crate::request::content_length_key_vec(), length);
        proof {
            let s2 = seq![(server_key(), server_value()), (content_type_key(), ct)];
            let clk = crate::request::content_length_key();
            assert(s2[0].0 != clk) by {
                assert(server_key().len() != clk.len());
            }
            assert(s2.skip(1) =~= seq![(content_type_key(), ct)]);
            assert(s2.skip(1)[0].0 != clk) by {
                assert(content_type_key().len() != clk.len());
            }
            assert(s2.skip(1).skip(1) =~= Seq::<PairView>::empty());
            assert(find_key(Seq::<PairView>::empty(), clk) is None);
            assert(find_key(s2.skip(1), clk) is None);
            assert(find_key(s2, clk) is None);
            assert(header_info.header_fields@ =~= seq![
                (server_key(), server_value()),
                (content_type_key(), ct),
                (clk, dec_rep(blen)),
            ]);
        }
        HttpResponse { header_info, payload: Some(resource.bytes) }
    } else {
        generate_404(resource.content_type)
    }
}

} // verus!
