//! The configuration grammar: a line-oriented `key = value` file, one
//! pair per line, split at the first equals sign, both sides trimmed,
//! later duplicate keys overwriting earlier ones.

use vstd::prelude::*;
use crate::bytes::{first_occurrence, lemma_first_occurrence, occurs_at, find_seq, subrange_vec,
    trim, trim_bytes, LF, EQUALS};
use crate::headers::{HeaderMap, PairView, assemble, map_insert};
use crate::tokenize::{split_on, split_on_vec};

verus! {

/// A single line feed, the line separator of the configuration file.
pub open spec fn newline() -> Seq<u8> {
    seq![LF]
}

/// A single equals sign, the key/value separator of a configuration line.
pub open spec fn equals() -> Seq<u8> {
    seq![EQUALS]
}

/// One configuration line split at its first equals sign, both sides
/// trimmed; a line with no equals sign is a key with an empty value.
pub open spec fn config_pair_of(line: Seq<u8>) -> PairView {
    match first_occurrence(line, equals()) {
        None => (trim(line), Seq::empty()),
        Some(i) => (trim(line.subrange(0, i)), trim(line.skip(i + 1))),
    }
}

/// The map read from a whole configuration file.
pub open spec fn parse_config_spec(contents: Seq<u8>) -> Seq<PairView> {
    assemble(split_on(contents, newline()).map_values(|l: Seq<u8>| config_pair_of(l)))
}

/// Split one configuration line at its first equals sign and trim both
/// sides.
fn parse_config_line(line: &[u8]) -> (r: (Vec<u8>, Vec<u8>))
    ensures
        (r.0@, r.1@) == config_pair_of(line@),
{
    let mut sep: Vec<u8> = Vec::new();
    sep.push(EQUALS);
    proof {
        assert(sep@ =~= equals());
    }
    match find_seq(line, &sep) {
        None => (trim_bytes(line), Vec::new()),
        Some(i) => {
            proof {
                lemma_first_occurrence(line@, equals());
                assert(occurs_at(line@, equals(), i as int));
            }
            let line_len = line.len();
            let key_raw = subrange_vec(line, 0, i);
            let val_raw = subrange_vec(line, i + 1, line_len);
            proof {
                assert(val_raw@ =~= line@.skip(i + 1));
            }
            (trim_bytes(key_raw.as_slice()), trim_bytes(val_raw.as_slice()))
        },
    }
}

/// Read a whole configuration file into a key/value map, inserting lines
/// in order so that a later duplicate key wins.
pub fn parse_config(contents: &[u8]) -> (r: HeaderMap)
    ensures
        r@ == parse_config_spec(contents@),
{
    let mut sep: Vec<u8> = Vec::new();
    sep.push(LF);
    proof {
        assert(sep@ =~= newline());
    }
    let lines = split_on_vec(contents, sep.as_slice());
    let ghost ls = split_on(contents@, newline());
    let mut map = HeaderMap::new();
    let n = lines.len();
    let mut i: usize = 0;
    proof {
        assert(lines@.len() == ls.len());
    }
    while i < n
        invariant
            0 <= i <= n,
            n == lines@.len(),
            lines.deep_view() == ls,
            map@ == assemble(ls.take(i as int).map_values(|l: Seq<u8>| config_pair_of(l))),
        decreases n - i,
    {
        let (key, value) = parse_config_line(lines[i].as_slice());
        map.insert(key, value);
        proof {
            let f = |l: Seq<u8>| config_pair_of(l);
            let pre = ls.take(i as int).map_values(f);
            let post = ls.take(i + 1).map_values(f);
            assert(post.drop_last() =~~= pre);
            assert(lines.deep_view()[i as int] =~= lines@[i as int]@);
            assert(post.last() == f(lines@[i as int]@));
            assert(map@ == map_insert(assemble(pre), post.last().0, post.last().1));
        }
        i = i + 1;
    }
    proof {
        assert(ls.take(n as int) =~~= ls);
    }
    map
}

} // verus!
