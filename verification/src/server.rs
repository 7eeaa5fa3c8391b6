//! One request/response cycle as a pure function of the raw request
//! bytes, the configured root, and the outcome of the single file read.
//! The caller performs the read between `route_request` and `respond`;
//! everything else is computed here.

use vstd::prelude::*;
use crate::request::{parse_http_message_spec, parse_http_message};
use crate::resolve::{resolved_path, resource_of, resolve_path, resolve_resource};
use crate::response::{
    render_response, response_for, invalid_request_response_view, invalid_request_response,
    build_get_response,
};

verus! {

/// The wire bytes answered to one raw request, given the root directory
/// and the outcome of reading the file the request resolves to: a 400
/// when the request does not parse, otherwise the response for the
/// resolution outcome. A rejected request never depends on `read`.
pub open spec fn handle_spec(req: Seq<u8>, root: Seq<u8>, read: Option<Seq<u8>>) -> Seq<u8> {
    match parse_http_message_spec(req) {
        None => render_response(invalid_request_response_view()),
        Some(m) => render_response(
            response_for(
                resource_of(resolved_path(root, m.header_info.request_line.target), read),
            ),
        ),
    }
}

/// Parse a raw request and resolve its target beneath the root. Returns
/// the path to read, or `None` when the request is rejected with a 400;
/// no path is ever produced for a rejected request.
pub fn route_request(root: &[u8], request: &[u8]) -> (r: Option<Vec<u8>>)
    ensures
        r is Some <==> parse_http_message_spec(request@) is Some,
        r matches Some(p) ==> parse_http_message_spec(request@) matches Some(m)
            && p@ == resolved_path(root@, m.header_info.request_line.target),
{
    match parse_http_message(request) {
        None => None,
        Some(msg) => Some(resolve_path(root, msg.header_info.request_line.target.as_slice())),
    }
}

/// Serialize the response for the outcome of reading a resolved path.
pub fn respond(path: &[u8], read: Option<Vec<u8>>) -> (r: Vec<u8>)
    ensures
        r@ == render_response(
            response_for(
                resource_of(path@, match read {
                    None => None,
                    Some(b) => Some(b@),
                }),
            ),
        ),
{
    let resource = resolve_resource(path, read);
    let response = build_get_response(resource);
    response.serialize()
}

/// Serialize the canonical 400 response for a rejected request.
pub fn respond_invalid() -> (r: Vec<u8>)
    ensures
        r@ == render_response(invalid_request_response_view()),
{
    invalid_request_response().serialize()
}

} // verus!
