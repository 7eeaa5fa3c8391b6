//! Re-tokenizing a serialized response through the same status-line and
//! header grammar the request side uses: the status line is split at its
//! first two spaces into version, code and reason, and the header block
//! is split into CRLF lines whose fields are assembled last-write-wins.

use vstd::prelude::*;
use crate::bytes::{first_occurrence, lemma_first_occurrence, occurs_at, find_seq, subrange_vec,
    SP};
use crate::headers::{HeaderMap, PairView, assemble, header_pair_of, assemble_header_lines};
use crate::numbers::{is_digits, dec_value, capped, parse_decimal};
use crate::request::Version;
use crate::response::{ResponseLine, ResponseLineView};
use crate::tokenize::{split_on, sp, crlf, head_of, split_head_body, crlf_vec, split_on_vec,
    lemma_split_on_nonempty};

verus! {

/// The status-line grammar: a version token up to the first space, a
/// decimal status code up to the next space, and the rest as the reason
/// phrase, which may itself contain spaces.
pub open spec fn parse_response_line_spec(line: Seq<u8>) -> Option<ResponseLineView> {
    match first_occurrence(line, sp()) {
        None => None,
        Some(i) => {
            let rest = line.skip(i + 1);
            match crate::request::version_of(line.subrange(0, i)) {
                None => None,
                Some(v) => match first_occurrence(rest, sp()) {
                    None => None,
                    Some(j) => {
                        let ctok = rest.subrange(0, j);
                        if is_digits(ctok) && dec_value(ctok) <= 65535 {
                            Some(
                                ResponseLineView {
                                    http_version: v,
                                    status_code: dec_value(ctok) as u16,
                                    reason_phrase: rest.skip(j + 1),
                                },
                            )
                        } else {
                            None
                        }
                    },
                },
            }
        },
    }
}

/// The whole response-message grammar, as far as the round trip speaks of
/// it: the status line and the assembled header fields of the header
/// block before the first blank line.
pub open spec fn parse_response_message_spec(bytes: Seq<u8>) -> Option<
    (ResponseLineView, Seq<PairView>),
> {
    let lines = split_on(head_of(bytes), crlf());
    match parse_response_line_spec(lines[0]) {
        None => None,
        Some(rl) => Some(
            (rl, assemble(lines.skip(1).map_values(|l: Seq<u8>| header_pair_of(l)))),
        ),
    }
}

/// Tokenize a response status line.
pub fn parse_response_line(line: &[u8]) -> (r: Option<ResponseLine>)
    ensures
        match r {
            Some(rl) => parse_response_line_spec(line@) == Some(rl@),
            None => parse_response_line_spec(line@) is None,
        },
{
    let mut sep: Vec<u8> = Vec::new();
    sep.push(SP);
    proof {
        assert(sep@ =~= sp());
    }
    let i = match find_seq(line, sep.as_slice()) {
        None => {
            return None;
        },
        Some(i) => i,
    };
    proof {
        lemma_first_occurrence(line@, sp());
        assert(occurs_at(line@, sp(), i as int));
    }
    let line_len = line.len();
    let vtok = subrange_vec(line, 0, i);
    let rest = subrange_vec(line, i + 1, line_len);
    proof {
        assert(rest@ =~= line@.skip(i + 1));
    }
    let version = match crate::request::match_version(vtok.as_slice()) {
        None => {
            return None;
        },
        Some(v) => v,
    };
    let j = match find_seq(rest.as_slice(), sep.as_slice()) {
        None => {
            return None;
        },
        Some(j) => j,
    };
    proof {
        lemma_first_occurrence(rest@, sp());
        assert(occurs_at(rest@, sp(), j as int));
    }
    let rest_len = rest.len();
    let ctok = subrange_vec(rest.as_slice(), 0, j);
    let reason = subrange_vec(rest.as_slice(), j + 1, rest_len);
    proof {
        assert(reason@ =~= rest@.skip(j + 1));
    }
    match parse_decimal(ctok.as_slice()) {
        None => None,
        Some(n) => if n <= 65535 {
            proof {
                assert(usize::MAX >= 65535);
                assert(dec_value(ctok@) == n);
            }
            Some(
                ResponseLine {
                    http_version: version,
                    status_code: n as u16,
                    reason_phrase: reason,
                },
            )
        } else {
            proof {
                if dec_value(ctok@) <= 65535 {
                    assert(capped(dec_value(ctok@), usize::MAX as nat) == dec_value(ctok@));
                }
            }
            None
        },
    }
}

/// Re-tokenize serialized response bytes: status line and header fields
/// of the header block.
pub fn parse_response_message(bytes: &[u8]) -> (r: Option<(ResponseLine, HeaderMap)>)
    ensures
        match r {
            Some(m) => parse_response_message_spec(bytes@) == Some((m.0@, m.1@)),
            None => parse_response_message_spec(bytes@) is None,
        },
{
    let (head, _body) = split_head_body(bytes);
    let sep = crlf_vec();
    let lines = split_on_vec(head.as_slice(), sep.as_slice());
    let ghost ls = split_on(head_of(bytes@), crlf());
    proof {
        lemma_split_on_nonempty(head_of(bytes@), crlf());
        assert(lines@.len() == ls.len());
        assert(lines.deep_view()[0] =~= lines@[0]@);
    }
    match parse_response_line(lines[0].as_slice()) {
        None => None,
        Some(rl) => {
            let mut map = HeaderMap::new();
            assemble_header_lines(&mut map, &lines, 1);
            proof {
                assert(lines.deep_view().skip(1) =~~= ls.skip(1));
            }
            Some((rl, map))
        },
    }
}

} // verus!
