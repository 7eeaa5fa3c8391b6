//! The laws the pipeline obeys, stated over the spec functions that the
//! executable functions' contracts use, and proved once and for all.

use vstd::prelude::*;
use crate::bytes::{contains_seq, trim, no_byte, first_occurrence, lemma_first_single, CR, LF, SP,
    COLON};
use crate::headers::{PairView, map_get, find_key, unique_keys, assemble, lemma_find_key};
use crate::numbers::{is_digit, dec_rep, dec_value, lemma_dec_rep_digits, lemma_dec_round_trip};
use crate::request::{
    method_of, version_of, version_bytes, content_length_key, parse_http_message_spec,
    parse_header_information_spec, parse_request_line_spec,
};
use crate::resolve::{resolved_path, resource_of, root_target, index_html};
use crate::response::{
    response_for, render_response, render_fields, render_field_line, render_status_line,
    invalid_request_response_view, not_found_body, content_type_key, HttpResponseView,
    ResponseLineView,
};
use crate::content_type::content_type_of;
use crate::server::handle_spec;
use crate::tokenize::{split_on, sp, crlf, colon, head_of, join_crlf, clean_line, all_clean,
    all_nonempty, lemma_split_join, lemma_first_blank_line};
use crate::uri::{percent_decoded, dot_dot, uri_ok, escapes_ok};

verus! {

/// A request line with the wrong number of tokens, an unrecognized
/// method, or an unaccepted version is rejected, and the server answers
/// the canonical 400 bytes whatever the root and whatever a read would
/// have returned.
pub proof fn lemma_bad_request_line_rejected(
    req: Seq<u8>,
    root: Seq<u8>,
    read: Option<Seq<u8>>,
)
    requires
        ({
            let toks = split_on(split_on(head_of(req), crlf())[0], sp());
            ||| toks.len() != 3
            ||| method_of(toks[0]) is Unknown
            ||| version_of(toks[2]) is None
        }),
    ensures
        parse_http_message_spec(req) is None,
        handle_spec(req, root, read) == render_response(invalid_request_response_view()),
{
    assert(parse_request_line_spec(split_on(head_of(req), crlf())[0]) is None);
}

/// A request line whose decoded target contains `..` anywhere is
/// rejected, and the server answers the canonical 400 bytes: no path is
/// ever formed from such a target, so no filesystem call can follow.
pub proof fn lemma_traversal_rejected(req: Seq<u8>, root: Seq<u8>, read: Option<Seq<u8>>)
    requires
        ({
            let toks = split_on(split_on(head_of(req), crlf())[0], sp());
            toks.len() == 3 && contains_seq(percent_decoded(toks[1]), dot_dot())
        }),
    ensures
        parse_http_message_spec(req) is None,
        handle_spec(req, root, read) == render_response(invalid_request_response_view()),
{
    let toks = split_on(split_on(head_of(req), crlf())[0], sp());
    assert(!uri_ok(toks[1]));
    assert(parse_request_line_spec(split_on(head_of(req), crlf())[0]) is None);
}

/// A request line whose raw target holds a malformed percent-escape (a
/// `%` not followed by two hexadecimal digits) is a decoding failure:
/// the request is rejected and the server answers the canonical 400
/// bytes.
pub proof fn lemma_bad_escape_rejected(req: Seq<u8>, root: Seq<u8>, read: Option<Seq<u8>>)
    requires
        ({
            let toks = split_on(split_on(head_of(req), crlf())[0], sp());
            toks.len() == 3 && !escapes_ok(toks[1])
        }),
    ensures
        parse_http_message_spec(req) is None,
        handle_spec(req, root, read) == render_response(invalid_request_response_view()),
{
    let toks = split_on(split_on(head_of(req), crlf())[0], sp());
    assert(!uri_ok(toks[1]));
    assert(parse_request_line_spec(split_on(head_of(req), crlf())[0]) is None);
}

/// The target `/` alone resolves to `index.html` directly beneath the
/// root.
pub proof fn lemma_root_resolves_to_index(root: Seq<u8>)
    ensures
        resolved_path(root, root_target()) == root + root_target() + index_html(),
{
}

/// A found resource of N bytes is served as a 200 whose body is exactly
/// those bytes, whose `Content-Type` is the classified MIME type of the
/// resolved path, and whose `Content-Length` is the decimal rendering of
/// N.
pub proof fn lemma_found_resource_served(path: Seq<u8>, bytes: Seq<u8>)
    ensures
        ({
            let r = response_for(resource_of(path, Some(bytes)));
            &&& r.header_info.response_line.status_code == 200
            &&& r.payload == Some(bytes)
            &&& map_get(r.header_info.header_fields, content_type_key())
                == Some(content_type_of(path))
            &&& map_get(r.header_info.header_fields, content_length_key())
                == Some(dec_rep(bytes.len()))
        }),
{
    let r = response_for(resource_of(path, Some(bytes)));
    let fs = r.header_info.header_fields;
    lemma_find_key(fs, content_type_key());
    match find_key(fs, content_type_key()) {
        None => {
            assert(fs[1].0 == content_type_key());
        },
        Some(j) => {
            assert(fs[0].0 != content_type_key()) by {
                assert(fs[0].0.len() == 6);
            }
            assert(j == 1);
        },
    }
    lemma_find_key(fs, content_length_key());
    match find_key(fs, content_length_key()) {
        None => {
            assert(fs[2].0 == content_length_key());
        },
        Some(j) => {
            assert(fs[0].0 != content_length_key()) by {
                assert(fs[0].0.len() == 6);
            }
            assert(fs[1].0 != content_length_key()) by {
                assert(fs[1].0.len() == 12);
            }
            assert(j == 2);
        },
    }
}

/// A target with no readable file is answered with a 404 carrying the
/// MIME type classified from the requested path, the fixed not-found
/// document as its body, and that document's length as `Content-Length`.
pub proof fn lemma_missing_resource_not_found(path: Seq<u8>)
    ensures
        ({
            let r = response_for(resource_of(path, None));
            &&& r.header_info.response_line.status_code == 404
            &&& r.payload == Some(not_found_body())
            &&& map_get(r.header_info.header_fields, content_type_key())
                == Some(content_type_of(path))
            &&& map_get(r.header_info.header_fields, content_length_key())
                == Some(dec_rep(not_found_body().len()))
        }),
{
    let r = response_for(resource_of(path, None));
    let fs = r.header_info.header_fields;
    lemma_find_key(fs, content_type_key());
    match find_key(fs, content_type_key()) {
        None => {
            assert(fs[0].0 == content_type_key());
        },
        Some(j) => {
            assert(j == 0);
        },
    }
    lemma_find_key(fs, content_length_key());
    match find_key(fs, content_length_key()) {
        None => {
            assert(fs[1].0 == content_length_key());
        },
        Some(j) => {
            assert(fs[0].0 != content_length_key()) by {
                assert(fs[0].0.len() == 12);
            }
            assert(j == 1);
        },
    }
}

/// A header field fit for the wire: name and value free of CR and LF,
/// the name free of colons, the value carrying no surrounding
/// whitespace.
pub open spec fn wf_field(p: PairView) -> bool {
    &&& no_byte(p.0, CR)
    &&& no_byte(p.0, LF)
    &&& no_byte(p.0, COLON)
    &&& no_byte(p.1, CR)
    &&& no_byte(p.1, LF)
    &&& trim(p.1) == p.1
}

/// A response message fit for the wire: a reason phrase free of CR and
/// LF, and header fields that are well-formed with pairwise distinct
/// names.
pub open spec fn wf_response(r: HttpResponseView) -> bool {
    &&& no_byte(r.header_info.response_line.reason_phrase, CR)
    &&& no_byte(r.header_info.response_line.reason_phrase, LF)
    &&& unique_keys(r.header_info.header_fields)
    &&& forall|i: int|
        0 <= i < r.header_info.header_fields.len() ==> wf_field(
            #[trigger] r.header_info.header_fields[i],
        )
}

/// The status line without its CRLF terminator.
pub open spec fn status_line_body(l: ResponseLineView) -> Seq<u8> {
    version_bytes(l.http_version) + sp() + dec_rep(l.status_code as nat) + sp()
        + l.reason_phrase
}

/// One header field line without its CRLF terminator.
pub open spec fn field_line_body(p: PairView) -> Seq<u8> {
    p.0 + colon() + sp() + p.1
}

/// The lines a response message serializes to, in order, without
/// terminators.
pub open spec fn lines_list(r: HttpResponseView) -> Seq<Seq<u8>> {
    seq![status_line_body(r.header_info.response_line)] + r.header_info.header_fields.map_values(
        |p: PairView| field_line_body(p),
    )
}

/// The serialized body: the payload, or nothing.
pub open spec fn payload_bytes(r: HttpResponseView) -> Seq<u8> {
    match r.payload {
        None => Seq::empty(),
        Some(b) => b,
    }
}

/// Rendered header fields are their lines joined with CRLF, with one
/// more CRLF at the end.
proof fn lemma_render_fields_join(fs: Seq<PairView>)
    requires
        fs.len() >= 1,
    ensures
        render_fields(fs) == join_crlf(fs.map_values(|p: PairView| field_line_body(p)))
            + crlf(),
    decreases fs.len(),
{
    let f = |p: PairView| field_line_body(p);
    let m = fs.map_values(f);
    assert(render_field_line(fs[0]) =~= field_line_body(fs[0]) + crlf());
    if fs.len() == 1 {
        assert(fs.skip(1) =~= Seq::<PairView>::empty());
        assert(render_fields(Seq::<PairView>::empty()) == Seq::<u8>::empty());
        assert(join_crlf(m) == m[0]);
        assert(render_fields(fs) =~= join_crlf(m) + crlf());
    } else {
        lemma_render_fields_join(fs.skip(1));
        assert(m.skip(1) =~~= fs.skip(1).map_values(f));
        assert(join_crlf(m) == m[0] + crlf() + join_crlf(m.skip(1)));
        assert(render_fields(fs) =~= join_crlf(m) + crlf());
    }
}

/// A rendered response is its lines joined with CRLF, a blank line, then
/// the body.
proof fn lemma_render_as_join(r: HttpResponseView)
    ensures
        render_response(r) == join_crlf(lines_list(r)) + crlf() + crlf() + payload_bytes(r),
{
    let line = r.header_info.response_line;
    let fs = r.header_info.header_fields;
    let sl = status_line_body(line);
    let m = fs.map_values(|p: PairView| field_line_body(p));
    let ll = lines_list(r);
    assert(render_status_line(line) =~= sl + crlf());
    assert(ll[0] == sl);
    if fs.len() == 0 {
        assert(ll.len() == 1);
        assert(join_crlf(ll) == sl);
        assert(render_fields(fs) == Seq::<u8>::empty());
        assert(render_response(r) =~= join_crlf(ll) + crlf() + crlf() + payload_bytes(r));
    } else {
        lemma_render_fields_join(fs);
        assert(ll.len() >= 2);
        assert(ll.skip(1) =~~= m);
        assert(join_crlf(ll) == ll[0] + crlf() + join_crlf(ll.skip(1)));
        assert(render_response(r) =~= join_crlf(ll) + crlf() + crlf() + payload_bytes(r));
    }
}

/// The wire spelling of a version holds no CR, LF or space.
proof fn lemma_version_bytes_plain(v: crate::request::Version)
    ensures
        no_byte(version_bytes(v), CR),
        no_byte(version_bytes(v), LF),
        no_byte(version_bytes(v), SP),
{
    match v {
        crate::request::Version::Http11 => {
            assert(no_byte(version_bytes(v), CR) && no_byte(version_bytes(v), LF)
                && no_byte(version_bytes(v), SP));
        },
        crate::request::Version::Http10 => {
            assert(no_byte(version_bytes(v), CR) && no_byte(version_bytes(v), LF)
                && no_byte(version_bytes(v), SP));
        },
    }
}

/// The status line of a well-formed response holds no CR or LF, and is
/// never empty.
proof fn lemma_status_line_clean(l: ResponseLineView)
    requires
        no_byte(l.reason_phrase, CR),
        no_byte(l.reason_phrase, LF),
    ensures
        clean_line(status_line_body(l)),
        status_line_body(l).len() >= 1,
{
    let s = status_line_body(l);
    lemma_version_bytes_plain(l.http_version);
    lemma_dec_rep_digits(l.status_code as nat);
    let vb = version_bytes(l.http_version);
    let dec = dec_rep(l.status_code as nat);
    assert forall|i: int| 0 <= i < s.len() implies s[i] != CR && s[i] != LF by {
        if i < vb.len() {
            assert(s[i] == vb[i]);
        } else if i == vb.len() {
            assert(s[i] == SP);
        } else if i < vb.len() + 1 + dec.len() {
            assert(s[i] == dec[i - vb.len() - 1]);
            assert(is_digit(dec[i - vb.len() - 1]));
        } else if i == vb.len() + 1 + dec.len() {
            assert(s[i] == SP);
        } else {
            assert(s[i] == l.reason_phrase[i - vb.len() - dec.len() - 2]);
        }
    }
}

/// A well-formed header field's line holds no CR or LF, and is never
/// empty.
proof fn lemma_field_line_clean(p: PairView)
    requires
        wf_field(p),
    ensures
        clean_line(field_line_body(p)),
        field_line_body(p).len() >= 2,
{
    let s = field_line_body(p);
    assert forall|i: int| 0 <= i < s.len() implies s[i] != CR && s[i] != LF by {
        if i < p.0.len() {
            assert(s[i] == p.0[i]);
        } else if i == p.0.len() {
            assert(s[i] == COLON);
        } else if i == p.0.len() + 1 {
            assert(s[i] == SP);
        } else {
            assert(s[i] == p.1[i - p.0.len() - 2]);
        }
    }
}

/// Tokenizing the status line of a well-formed response through the
/// status-line grammar recovers it exactly.
proof fn lemma_parse_status_line(l: ResponseLineView)
    ensures
        crate::wire::parse_response_line_spec(status_line_body(l)) == Some(l),
{
    let vb = version_bytes(l.http_version);
    let dec = dec_rep(l.status_code as nat);
    let reason = l.reason_phrase;
    let s = status_line_body(l);
    lemma_version_bytes_plain(l.http_version);
    lemma_dec_rep_digits(l.status_code as nat);
    lemma_dec_round_trip(l.status_code as nat);
    assert(s[vb.len() as int] == SP);
    assert forall|i: int| 0 <= i < vb.len() implies s[i] != SP by {
        assert(s[i] == vb[i]);
    }
    lemma_first_single(s, SP, vb.len() as int);
    assert(sp() =~= seq![SP]);
    assert(s.subrange(0, vb.len() as int) =~= vb);
    assert(crate::request::version_of(vb) == Some(l.http_version)) by {
        assert(version_bytes(crate::request::Version::Http11)[7] == 49);
        assert(version_bytes(crate::request::Version::Http10)[7] == 48);
    }
    let rest = s.skip(vb.len() as int + 1);
    assert(rest =~= dec + sp() + reason);
    assert(rest[dec.len() as int] == SP);
    assert forall|i: int| 0 <= i < dec.len() implies rest[i] != SP by {
        assert(rest[i] == dec[i]);
        assert(is_digit(dec[i]));
    }
    lemma_first_single(rest, SP, dec.len() as int);
    assert(rest.subrange(0, dec.len() as int) =~= dec);
    assert(rest.skip(dec.len() as int + 1) =~= reason);
    assert(dec_value(dec) == l.status_code as nat);
}

/// Splitting a well-formed header field's line at its first colon and
/// trimming the value recovers the field exactly.
proof fn lemma_parse_field_line(p: PairView)
    requires
        wf_field(p),
    ensures
        crate::headers::header_pair_of(field_line_body(p)) == p,
{
    let s = field_line_body(p);
    assert(s[p.0.len() as int] == COLON);
    assert forall|i: int| 0 <= i < p.0.len() implies s[i] != COLON by {
        assert(s[i] == p.0[i]);
    }
    lemma_first_single(s, COLON, p.0.len() as int);
    assert(crate::tokenize::colon() =~= seq![COLON]);
    assert(s.subrange(0, p.0.len() as int) =~= p.0);
    assert(s.skip(p.0.len() as int + 1) =~= seq![SP] + p.1);
    crate::bytes::lemma_trim_space_prefix(p.1);
}

/// Assembling pairs whose names are pairwise distinct changes nothing.
proof fn lemma_assemble_identity(pairs: Seq<PairView>)
    requires
        unique_keys(pairs),
    ensures
        assemble(pairs) == pairs,
    decreases pairs.len(),
{
    if pairs.len() > 0 {
        let pre = pairs.drop_last();
        let last = pairs.last();
        assert(unique_keys(pre)) by {
            assert(forall|i: int| 0 <= i < pre.len() ==> pre[i] == pairs[i]);
        }
        lemma_assemble_identity(pre);
        lemma_find_key(pre, last.0);
        match find_key(pre, last.0) {
            None => {
                assert(assemble(pairs) =~~= pre.push(last));
                assert(pre.push(last) =~~= pairs);
            },
            Some(j) => {
                assert(pre[j].0 == last.0);
                assert(pairs[j].0 == pairs[pairs.len() - 1].0);
            },
        }
    }
}

/// Round trip: serializing a well-formed response message and
/// re-tokenizing its bytes through the same status-line and header
/// grammar recovers the status line (version, code and reason phrase)
/// and every header field exactly.
pub proof fn lemma_serialize_round_trip(r: HttpResponseView)
    requires
        wf_response(r),
    ensures
        crate::wire::parse_response_message_spec(render_response(r)) == Some(
            (r.header_info.response_line, r.header_info.header_fields),
        ),
{
    let line = r.header_info.response_line;
    let fields = r.header_info.header_fields;
    let sl = status_line_body(line);
    let fl = |p: PairView| field_line_body(p);
    let ll = lines_list(r);
    let body = payload_bytes(r);
    let rendered = render_response(r);
    lemma_render_as_join(r);
    assert(all_clean(ll) && all_nonempty(ll)) by {
        lemma_status_line_clean(line);
        assert forall|i: int| 0 <= i < ll.len() implies clean_line(ll[i]) && ll[i].len() >= 1 by {
            if i >= 1 {
                assert(ll[i] == field_line_body(fields[i - 1]));
                lemma_field_line_clean(fields[i - 1]);
            }
        }
    }
    lemma_first_blank_line(ll, body);
    assert(first_occurrence(rendered, crate::tokenize::crlf_crlf()) == Some(
        join_crlf(ll).len() as int,
    ));
    assert(head_of(rendered) =~= join_crlf(ll));
    lemma_split_join(ll);
    let lines = split_on(head_of(rendered), crlf());
    assert(lines == ll);
    assert(lines[0] == sl);
    lemma_parse_status_line(line);
    let hp = |l: Seq<u8>| crate::headers::header_pair_of(l);
    assert(lines.skip(1).map_values(hp) =~~= fields) by {
        assert(lines.skip(1) =~~= fields.map_values(fl));
        assert forall|i: int| 0 <= i < fields.len() implies lines.skip(1).map_values(hp)[i]
            == fields[i] by {
            assert(lines.skip(1)[i] == field_line_body(fields[i]));
            lemma_parse_field_line(fields[i]);
        }
    }
    lemma_assemble_identity(fields);
    assert(assemble(lines.skip(1).map_values(hp)) == fields);
}

/// Every MIME type the classifier yields is free of CR and LF and
/// carries no surrounding whitespace.
proof fn lemma_mime_plain(t: crate::content_type::FileType)
    ensures
        no_byte(crate::content_type::mime_bytes(t), CR),
        no_byte(crate::content_type::mime_bytes(t), LF),
        trim(crate::content_type::mime_bytes(t)) == crate::content_type::mime_bytes(t),
{
    let m = crate::content_type::mime_bytes(t);
    assert(no_byte(m, CR) && no_byte(m, LF) && !crate::bytes::is_ws(m[0]) && !crate::bytes::is_ws(
        m.last(),
    ));
    crate::bytes::lemma_trim_fixed(m);
}

/// A run of digits is free of CR and LF and carries no surrounding
/// whitespace.
proof fn lemma_digits_plain(s: Seq<u8>)
    requires
        crate::numbers::is_digits(s),
    ensures
        no_byte(s, CR),
        no_byte(s, LF),
        trim(s) == s,
{
    assert(forall|i: int| 0 <= i < s.len() ==> is_digit(s[i]));
    assert(!crate::bytes::is_ws(s[0]) && !crate::bytes::is_ws(s.last()));
    crate::bytes::lemma_trim_fixed(s);
}

/// Every response the server builds for a resolution outcome of the
/// resolver is fit for the wire.
pub proof fn lemma_served_response_well_formed(path: Seq<u8>, read: Option<Seq<u8>>)
    ensures
        wf_response(response_for(resource_of(path, read))),
{
    let res = resource_of(path, read);
    let r = response_for(res);
    let fs = r.header_info.header_fields;
    lemma_mime_plain(crate::content_type::file_type_of(crate::content_type::ext_of(path)));
    lemma_dec_rep_digits(res.bytes.len());
    lemma_digits_plain(dec_rep(res.bytes.len()));
    lemma_dec_rep_digits(not_found_body().len());
    lemma_digits_plain(dec_rep(not_found_body().len()));
    let sval = crate::response::server_value();
    assert(no_byte(sval, CR) && no_byte(sval, LF) && !crate::bytes::is_ws(sval[0])
        && !crate::bytes::is_ws(sval.last()));
    crate::bytes::lemma_trim_fixed(sval);
    if res.found {
        assert forall|i: int| 0 <= i < fs.len() implies wf_field(#[trigger] fs[i]) by {
            assert(fs[0] == (crate::response::server_key(), sval));
            assert(fs[1] == (content_type_key(), res.content_type));
            assert(fs[2] == (content_length_key(), dec_rep(res.bytes.len())));
        }
        assert(unique_keys(fs)) by {
            assert(fs[0].0.len() == 6 && fs[1].0.len() == 12 && fs[2].0.len() == 14);
        }
    } else {
        assert forall|i: int| 0 <= i < fs.len() implies wf_field(#[trigger] fs[i]) by {
            assert(fs[0] == (content_type_key(), res.content_type));
            assert(fs[1] == (content_length_key(), dec_rep(not_found_body().len())));
        }
        assert(unique_keys(fs)) by {
            assert(fs[0].0.len() == 12 && fs[1].0.len() == 14);
        }
    }
}

/// Every response the server builds for a resolution outcome
/// round-trips: re-tokenizing its wire bytes recovers its status line
/// and header fields exactly.
pub proof fn lemma_served_response_round_trips(path: Seq<u8>, read: Option<Seq<u8>>)
    ensures
        ({
            let r = response_for(resource_of(path, read));
            crate::wire::parse_response_message_spec(render_response(r)) == Some(
                (r.header_info.response_line, r.header_info.header_fields),
            )
        }),
{
    lemma_served_response_well_formed(path, read);
    lemma_serialize_round_trip(response_for(resource_of(path, read)));
}

/// The canonical 400 response round-trips as well.
pub proof fn lemma_invalid_response_round_trips()
    ensures
        ({
            let r = invalid_request_response_view();
            crate::wire::parse_response_message_spec(render_response(r)) == Some(
                (r.header_info.response_line, r.header_info.header_fields),
            )
        }),
{
    let r = invalid_request_response_view();
    let reason = crate::response::invalid_reason();
    assert(no_byte(reason, CR) && no_byte(reason, LF));
    lemma_serialize_round_trip(r);
}

/// Handling is a pure function of the request bytes, the root, and the
/// read outcome: two identical requests against an unchanged root are
/// answered with byte-identical responses.
pub proof fn lemma_identical_requests_identical_responses(
    req1: Seq<u8>,
    req2: Seq<u8>,
    root: Seq<u8>,
    read1: Option<Seq<u8>>,
    read2: Option<Seq<u8>>,
)
    requires
        req1 == req2,
        read1 == read2,
    ensures
        handle_spec(req1, root, read1) == handle_spec(req2, root, read2),
{
}

} // verus!
