//! The header/line tokenizer: splitting one raw request into a header
//! block and a body block at the first blank line, splitting the header
//! block into lines, and splitting lines into tokens.

use vstd::prelude::*;
use crate::bytes::{
    occurs_at, first_occurrence, lemma_first_occurrence, lemma_occurs_shift, lemma_occurs_head, lemma_first_from_witness, no_byte, find_seq, subrange_vec, CR, LF, SP, COLON,
};

verus! {

/// The CRLF line terminator.
pub open spec fn crlf() -> Seq<u8> {
    seq![CR, LF]
}

/// The blank-line delimiter separating header block and body.
pub open spec fn crlf_crlf() -> Seq<u8> {
    seq![CR, LF, CR, LF]
}

/// A single space, the token separator of the request line.
pub open spec fn sp() -> Seq<u8> {
    seq![SP]
}

/// A single colon, the name/value separator of a header field line.
pub open spec fn colon() -> Seq<u8> {
    seq![COLON]
}

/// The CRLF terminator as a vector.
pub fn crlf_vec() -> (r: Vec<u8>)
    ensures
        r@ == crlf(),
{
    let mut v: Vec<u8> = Vec::new();
    v.push(CR);
    v.push(LF);
    proof {
        assert(v@ =~= crlf());
    }
    v
}

/// The blank-line delimiter as a vector.
pub fn crlf_crlf_vec() -> (r: Vec<u8>)
    ensures
        r@ == crlf_crlf(),
{
    let mut v: Vec<u8> = Vec::new();
    v.push(CR);
    v.push(LF);
    v.push(CR);
    v.push(LF);
    proof {
        assert(v@ =~= crlf_crlf());
    }
    v
}

/// Split `s` on every occurrence of `sep`, scanning left to right. The
/// result always has at least one element; separators are not kept.
pub open spec fn split_on(s: Seq<u8>, sep: Seq<u8>) -> Seq<Seq<u8>>
    decreases s.len(),
    via split_on_decreases
{
    if sep.len() == 0 {
        seq![s]
    } else {
        match first_occurrence(s, sep) {
            None => seq![s],
            Some(i) => seq![s.subrange(0, i)] + split_on(s.skip(i + sep.len()), sep),
        }
    }
}

#[via_fn]
proof fn split_on_decreases(s: Seq<u8>, sep: Seq<u8>) {
    if sep.len() > 0 {
        lemma_first_occurrence(s, sep);
        match first_occurrence(s, sep) {
            None => {},
            Some(i) => {
                assert(occurs_at(s, sep, i));
            },
        }
    }
}

/// `split_on` never yields an empty list.
pub proof fn lemma_split_on_nonempty(s: Seq<u8>, sep: Seq<u8>)
    ensures
        split_on(s, sep).len() >= 1,
{
}

/// Split `s` on every occurrence of `sep` into fresh vectors.
pub fn split_on_vec(s: &[u8], sep: &[u8]) -> (r: Vec<Vec<u8>>)
    requires
        sep@.len() >= 1,
    ensures
        r.deep_view() == split_on(s@, sep@),
{
    let mut out: Vec<Vec<u8>> = Vec::new();
    let mut rest: Vec<u8> = subrange_vec(s, 0, s.len());
    proof {
        assert(s@.subrange(0, s@.len() as int) =~= s@);
    }
    loop
        invariant
            sep@.len() >= 1,
            split_on(s@, sep@) == out.deep_view() + split_on(rest@, sep@),
        ensures
            out.deep_view() == split_on(s@, sep@),
        decreases rest@.len(),
    {
        let ghost pre_out = out.deep_view();
        match find_seq(&rest, sep) {
            None => {
                let ghost last = rest@;
                out.push(rest);
                proof {
                    assert(out.deep_view() =~~= pre_out + seq![last]);
                    assert(split_on(last, sep@) =~~= seq![last]);
                    assert(out.deep_view() =~~= split_on(s@, sep@));
                }
                return out;
            },
            Some(i) => {
                proof {
                    lemma_first_occurrence(rest@, sep@);
                    assert(occurs_at(rest@, sep@, i as int));
                }
                let rest_len = rest.len();
                let piece = subrange_vec(&rest, 0, i);
                let next = subrange_vec(&rest, i + sep.len(), rest_len);
                let ghost old_rest = rest@;
                out.push(piece);
                rest = next;
                proof {
                    assert(rest@ =~= old_rest.skip(i + sep@.len()));
                    assert(out.deep_view() =~~= pre_out + seq![old_rest.subrange(0, i as int)]);
                    assert(split_on(old_rest, sep@) =~~= seq![old_rest.subrange(0, i as int)]
                        + split_on(old_rest.skip(i + sep@.len()), sep@));
                    assert(out.deep_view() + split_on(rest@, sep@) =~~= split_on(s@, sep@));
                }
            },
        }
    }
}

/// Lines joined with the CRLF separator between them, no terminator.
pub open spec fn join_crlf(lines: Seq<Seq<u8>>) -> Seq<u8>
    decreases lines.len(),
{
    if lines.len() == 0 {
        Seq::empty()
    } else if lines.len() == 1 {
        lines[0]
    } else {
        lines[0] + crlf() + join_crlf(lines.skip(1))
    }
}

/// The line holds neither CR nor LF.
pub open spec fn clean_line(s: Seq<u8>) -> bool {
    no_byte(s, CR) && no_byte(s, LF)
}

/// Every line holds neither CR nor LF.
pub open spec fn all_clean(lines: Seq<Seq<u8>>) -> bool {
    forall|i: int| 0 <= i < lines.len() ==> clean_line(lines[i])
}

/// Every line has at least one byte.
pub open spec fn all_nonempty(lines: Seq<Seq<u8>>) -> bool {
    forall|i: int| 0 <= i < lines.len() ==> lines[i].len() >= 1
}

/// The join of at least one line starts with the first line's first byte.
proof fn lemma_join_first(lines: Seq<Seq<u8>>)
    requires
        lines.len() >= 1,
        lines[0].len() >= 1,
    ensures
        join_crlf(lines).len() >= lines[0].len(),
        join_crlf(lines)[0] == lines[0][0],
{
}

/// A clean line holds no CRLF at all.
proof fn lemma_clean_no_crlf(x: Seq<u8>)
    requires
        clean_line(x),
    ensures
        first_occurrence(x, crlf()) is None,
{
    assert forall|i: int| !occurs_at(x, crlf(), i) by {
        if occurs_at(x, crlf(), i) {
            lemma_occurs_head(x, crlf(), i);
        }
    }
    lemma_first_occurrence(x, crlf());
    match first_occurrence(x, crlf()) {
        None => {},
        Some(f) => {
            assert(occurs_at(x, crlf(), f));
        },
    }
}

/// After a clean line, the first CRLF of `line + CRLF + rest` is the one
/// appended to the line.
proof fn lemma_crlf_at_boundary(x: Seq<u8>, rest: Seq<u8>)
    requires
        clean_line(x),
    ensures
        first_occurrence(x + crlf() + rest, crlf()) == Some(x.len() as int),
{
    let s = x + crlf() + rest;
    assert(occurs_at(s, crlf(), x.len() as int)) by {
        assert(s.subrange(x.len() as int, x.len() as int + 2) =~= crlf());
    }
    assert forall|i: int| 0 <= i < x.len() implies !occurs_at(s, crlf(), i) by {
        if occurs_at(s, crlf(), i) {
            lemma_occurs_head(s, crlf(), i);
            assert(s[i] == x[i]);
        }
    }
    lemma_first_from_witness(s, crlf(), x.len() as int);
}

/// Splitting the CRLF join of clean lines on CRLF gives the lines back.
pub proof fn lemma_split_join(lines: Seq<Seq<u8>>)
    requires
        lines.len() >= 1,
        all_clean(lines),
    ensures
        split_on(join_crlf(lines), crlf()) == lines,
    decreases lines.len(),
{
    let s = join_crlf(lines);
    if lines.len() == 1 {
        lemma_clean_no_crlf(s);
        assert(split_on(s, crlf()) =~~= lines);
    } else {
        let x = lines[0];
        let rest = lines.skip(1);
        assert(s == x + crlf() + join_crlf(rest));
        lemma_crlf_at_boundary(x, join_crlf(rest));
        assert(s.subrange(0, x.len() as int) =~= x);
        assert(s.skip(x.len() as int + 2) =~= join_crlf(rest));
        assert(all_clean(rest)) by {
            assert(forall|i: int| 0 <= i < rest.len() ==> rest[i] == lines[i + 1]);
        }
        lemma_split_join(rest);
        assert(split_on(s, crlf()) =~~= seq![x] + split_on(join_crlf(rest), crlf()));
        assert(seq![x] + rest =~~= lines);
    }
}

/// In the join of clean, non-empty lines followed by a blank line and an
/// arbitrary tail, the first blank-line delimiter stands exactly at the
/// join's end.
pub proof fn lemma_first_blank_line(lines: Seq<Seq<u8>>, tail: Seq<u8>)
    requires
        lines.len() >= 1,
        all_clean(lines),
        all_nonempty(lines),
    ensures
        first_occurrence(join_crlf(lines) + crlf() + crlf() + tail, crlf_crlf()) == Some(
            join_crlf(lines).len() as int,
        ),
    decreases lines.len(),
{
    let s = join_crlf(lines) + crlf() + crlf() + tail;
    let cc = crlf_crlf();
    if lines.len() == 1 {
        let x = lines[0];
        assert(join_crlf(lines) == x);
        assert(occurs_at(s, cc, x.len() as int)) by {
            assert(s.subrange(x.len() as int, x.len() as int + 4) =~= cc);
        }
        assert forall|i: int| 0 <= i < x.len() implies !occurs_at(s, cc, i) by {
            if occurs_at(s, cc, i) {
                assert(s.subrange(i, i + 4)[0] == CR);
                assert(s[i] == CR);
                assert(s[i] == x[i]);
                assert(clean_line(x));
            }
        }
        lemma_first_occurrence(s, cc);
        match first_occurrence(s, cc) {
            None => {
                assert(!occurs_at(s, cc, x.len() as int));
            },
            Some(f) => {
                if f > x.len() {
                    assert(!occurs_at(s, cc, x.len() as int));
                }
            },
        }
    } else {
        let x = lines[0];
        let rest = lines.skip(1);
        let jr = join_crlf(rest);
        let s2 = jr + crlf() + crlf() + tail;
        assert(all_clean(rest) && all_nonempty(rest)) by {
            assert(forall|i: int| 0 <= i < rest.len() ==> rest[i] == lines[i + 1]);
        }
        lemma_first_blank_line(rest, tail);
        lemma_first_occurrence(s2, cc);
        assert(occurs_at(s2, cc, jr.len() as int));
        assert(join_crlf(lines) == x + crlf() + jr);
        assert(s =~= (x + crlf()) + s2);
        let px = x.len() + 2;
        assert forall|i: int| 0 <= i < px + jr.len() as int implies !occurs_at(s, cc, i) by {
            if occurs_at(s, cc, i) {
                assert(s.subrange(i, i + 4)[0] == CR);
                assert(s[i] == CR);
                if i < x.len() {
                    assert(s[i] == x[i]);
                    assert(clean_line(x));
                } else if i == x.len() {
                    assert(s.subrange(i, i + 4)[2] == CR);
                    assert(s[i + 2] == CR);
                    assert(rest[0].len() >= 1 && clean_line(rest[0]));
                    lemma_join_first(rest);
                    assert(s[x.len() as int + 2] == s2[0]);
                    assert(s2[0] == jr[0]);
                    assert(jr[0] == rest[0][0]);
                } else if i == x.len() + 1 {
                    assert(s[i] == crlf()[1]);
                } else {
                    lemma_occurs_shift(x + crlf(), s2, cc, i - px);
                    assert(occurs_at(s2, cc, i - px));
                    assert(i - px < jr.len());
                }
            }
        }
        assert(occurs_at(s, cc, px + jr.len() as int)) by {
            lemma_occurs_shift(x + crlf(), s2, cc, jr.len() as int);
        }
        lemma_first_occurrence(s, cc);
        match first_occurrence(s, cc) {
            None => {
                assert(!occurs_at(s, cc, px + jr.len() as int));
            },
            Some(f) => {
                if f > px + jr.len() as int {
                    assert(!occurs_at(s, cc, px + jr.len() as int));
                }
            },
        }
    }
}

/// The header block of a raw request: everything before the first blank
/// line, or the whole input when no blank line occurs.
pub open spec fn head_of(req: Seq<u8>) -> Seq<u8> {
    match first_occurrence(req, crlf_crlf()) {
        None => req,
        Some(i) => req.subrange(0, i),
    }
}

/// The body block of a raw request: everything after the first blank
/// line, or `None` when no blank line occurs.
pub open spec fn body_of(req: Seq<u8>) -> Option<Seq<u8>> {
    match first_occurrence(req, crlf_crlf()) {
        None => None,
        Some(i) => Some(req.skip(i + 4)),
    }
}

/// Split a raw request into its header block and its optional body block
/// at the first blank line.
pub fn split_head_body(req: &[u8]) -> (r: (Vec<u8>, Option<Vec<u8>>))
    ensures
        r.0@ == head_of(req@),
        match r.1 {
            None => body_of(req@) is None,
            Some(b) => body_of(req@) == Some(b@),
        },
{
    let delim = crlf_crlf_vec();
    match find_seq(req, &delim) {
        None => {
            proof {
                assert(req@.subrange(0, req@.len() as int) =~= req@);
            }
            (subrange_vec(req, 0, req.len()), None)
        },
        Some(i) => {
            proof {
                lemma_first_occurrence(req@, crlf_crlf());
                assert(occurs_at(req@, crlf_crlf(), i as int));
            }
            let req_len = req.len();
            let head = subrange_vec(req, 0, i);
            let body = subrange_vec(req, i + 4, req_len);
            proof {
                assert(body@ =~= req@.skip(i + 4));
            }
            (head, Some(body))
        },
    }
}

} // verus!
