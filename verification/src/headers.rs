//! Header fields as a last-write-wins map from field name to value, kept
//! in insertion order, together with the field-line grammar: a line is
//! split at its first colon and the value is trimmed.

use vstd::prelude::*;
use crate::bytes::{first_occurrence, lemma_first_occurrence, occurs_at, find_seq, subrange_vec,
    trim, trim_bytes, eq_bytes, COLON};
use crate::tokenize::colon;

verus! {

/// A name/value pair of byte strings.
pub type PairView = (Seq<u8>, Seq<u8>);

/// Index of the first pair whose name is `k`.
pub open spec fn find_key(s: Seq<PairView>, k: Seq<u8>) -> Option<int>
    decreases s.len(),
{
    if s.len() == 0 {
        None
    } else if s[0].0 == k {
        Some(0)
    } else {
        match find_key(s.skip(1), k) {
            None => None,
            Some(j) => Some(j + 1),
        }
    }
}

/// Value of the first pair named `k`, if any.
pub open spec fn map_get(s: Seq<PairView>, k: Seq<u8>) -> Option<Seq<u8>> {
    match find_key(s, k) {
        None => None,
        Some(j) => Some(s[j].1),
    }
}

/// Insert `k -> v`: replace the pair already named `k`, or append a new
/// pair. Later inserts win; insertion order of names is kept.
pub open spec fn map_insert(s: Seq<PairView>, k: Seq<u8>, v: Seq<u8>) -> Seq<PairView> {
    match find_key(s, k) {
        None => s.push((k, v)),
        Some(j) => s.update(j, (k, v)),
    }
}

/// No two pairs share a name.
pub open spec fn unique_keys(s: Seq<PairView>) -> bool {
    forall|i: int, j: int| 0 <= i < j < s.len() ==> s[i].0 != s[j].0
}

/// `find_key` finds a pair named `k` and the earliest one, or reports
/// that no pair is named `k`.
pub proof fn lemma_find_key(s: Seq<PairView>, k: Seq<u8>)
    ensures
        match find_key(s, k) {
            Some(j) => 0 <= j < s.len() && s[j].0 == k
                && (forall|t: int| 0 <= t < j ==> s[t].0 != k),
            None => forall|t: int| 0 <= t < s.len() ==> s[t].0 != k,
        },
    decreases s.len(),
{
    if s.len() > 0 && s[0].0 != k {
        lemma_find_key(s.skip(1), k);
        assert(forall|t: int| 1 <= t < s.len() ==> s[t] == s.skip(1)[t - 1]);
    }
}

/// Inserting keeps names unique.
pub proof fn lemma_map_insert_unique(s: Seq<PairView>, k: Seq<u8>, v: Seq<u8>)
    requires
        unique_keys(s),
    ensures
        unique_keys(map_insert(s, k, v)),
{
    lemma_find_key(s, k);
}

/// After an insert, looking the name up yields the inserted value, and
/// other names are untouched.
pub proof fn lemma_map_insert_get(s: Seq<PairView>, k: Seq<u8>, v: Seq<u8>, k2: Seq<u8>)
    ensures
        map_get(map_insert(s, k, v), k) == Some(v),
        k2 != k ==> map_get(map_insert(s, k, v), k2) == map_get(s, k2),
{
    lemma_find_key(s, k);
    let s2 = map_insert(s, k, v);
    lemma_find_key(s2, k);
    lemma_find_key(s2, k2);
    lemma_find_key(s, k2);
    match find_key(s2, k) {
        None => {
            match find_key(s, k) {
                None => { assert(s2[s.len() as int].0 == k); },
                Some(j) => { assert(s2[j].0 == k); },
            }
        },
        Some(j2) => {
            match find_key(s, k) {
                None => {
                    if j2 < s.len() {
                        assert(s[j2].0 == k);
                    }
                },
                Some(j) => {
                    if j2 < j {
                        assert(s[j2].0 == k);
                    }
                    if j2 > j {
                        assert(s2[j].0 == k);
                    }
                },
            }
        },
    }
    if k2 != k {
        match find_key(s2, k2) {
            None => {
                match find_key(s, k2) {
                    None => {},
                    Some(t) => {
                        assert(s2[t].0 == k2);
                    },
                }
            },
            Some(t2) => {
                match find_key(s, k2) {
                    None => {
                        assert(s[t2].0 == k2);
                    },
                    Some(t) => {
                        if t2 < t {
                            assert(s[t2].0 == k2);
                        }
                        if t2 > t {
                            assert(s2[t].0 == k2);
                        }
                        assert(s2[t2] == s[t2]);
                    },
                }
            },
        }
    }
}

/// The value of the last pair named `k` in a list of pairs, if any.
pub open spec fn last_value(pairs: Seq<PairView>, k: Seq<u8>) -> Option<Seq<u8>>
    decreases pairs.len(),
{
    if pairs.len() == 0 {
        None
    } else if pairs.last().0 == k {
        Some(pairs.last().1)
    } else {
        last_value(pairs.drop_last(), k)
    }
}

/// Last write wins: looking a name up in an assembled map yields the
/// value of the last pair that carried it, and nothing for a name that
/// no pair carried.
pub proof fn lemma_assemble_last_write_wins(pairs: Seq<PairView>, k: Seq<u8>)
    ensures
        map_get(assemble(pairs), k) == last_value(pairs, k),
    decreases pairs.len(),
{
    if pairs.len() == 0 {
        assert(find_key(Seq::<PairView>::empty(), k) is None);
    } else {
        let pre = pairs.drop_last();
        let last = pairs.last();
        lemma_assemble_last_write_wins(pre, k);
        lemma_map_insert_get(assemble(pre), last.0, last.1, k);
    }
}

/// A header field line split at its first colon: the name is everything
/// before the colon, the value is everything after it, trimmed. A line
/// with no colon is a name with an empty value.
pub open spec fn header_pair_of(line: Seq<u8>) -> PairView {
    match first_occurrence(line, colon()) {
        None => (line, Seq::empty()),
        Some(i) => (line.subrange(0, i), trim(line.skip(i + 1))),
    }
}

/// The map assembled by inserting the given pairs in order.
pub open spec fn assemble(pairs: Seq<PairView>) -> Seq<PairView>
    decreases pairs.len(),
{
    if pairs.len() == 0 {
        Seq::empty()
    } else {
        map_insert(assemble(pairs.drop_last()), pairs.last().0, pairs.last().1)
    }
}

/// An assembled map has unique names.
pub proof fn lemma_assemble_unique(pairs: Seq<PairView>)
    ensures
        unique_keys(assemble(pairs)),
    decreases pairs.len(),
{
    if pairs.len() > 0 {
        lemma_assemble_unique(pairs.drop_last());
        lemma_map_insert_unique(assemble(pairs.drop_last()), pairs.last().0, pairs.last().1);
    }
}

/// Header fields in insertion order; a later insert of a name already
/// present overwrites its value in place.
pub struct HeaderMap {
    fields: Vec<(Vec<u8>, Vec<u8>)>,
}

impl View for HeaderMap {
    type V = Seq<PairView>;

    closed spec fn view(&self) -> Seq<PairView> {
        Seq::new(self.fields@.len(), |i: int| (self.fields@[i].0@, self.fields@[i].1@))
    }
}

impl HeaderMap {
    /// The empty map.
    pub fn new() -> (r: HeaderMap)
        ensures
            r@ == Seq::<PairView>::empty(),
    {
        let r = HeaderMap { fields: Vec::new() };
        proof {
            assert(r@ =~~= Seq::<PairView>::empty());
        }
        r
    }

    /// Number of fields held.
    pub fn len(&self) -> (r: usize)
        ensures
            r == self@.len(),
    {
        self.fields.len()
    }

    /// Name and value of the field at `i`, in insertion order.
    pub fn field_at(&self, i: usize) -> (r: (&Vec<u8>, &Vec<u8>))
        requires
            i < self@.len(),
        ensures
            r.0@ == self@[i as int].0,
            r.1@ == self@[i as int].1,
    {
        (&self.fields[i].0, &self.fields[i].1)
    }

    /// Insert `k -> v`, overwriting the value of an existing field named
    /// `k` and appending a new field otherwise.
    pub fn insert(&mut self, k: Vec<u8>, v: Vec<u8>)
        ensures
            final(self)@ == map_insert(old(self)@, k@, v@),
    {
        let ghost s = self@;
        let n = self.fields.len();
        let mut i: usize = 0;
        while i < n
            invariant
                n == self.fields.len(),
                self@ == s,
                old(self)@ == s,
                0 <= i <= n,
                forall|t: int| 0 <= t < i ==> s[t].0 != k@,
            decreases n - i,
        {
            if eq_bytes(self.fields[i].0.as_slice(), k.as_slice()) {
                proof {
                    assert(s[i as int].0 == k@);
                    lemma_find_key_from_witness(s, k@, i as int);
                }
                self.fields.set(i, (k, v));
                proof {
                    assert(self@ =~~= s.update(i as int, (k@, v@)));
                    assert(self@ =~~= map_insert(s, k@, v@));
                }
                return;
            }
            i = i + 1;
        }
        proof {
            lemma_find_key(s, k@);
            match find_key(s, k@) {
                Some(j) => { assert(s[j].0 != k@); },
                None => {},
            }
        }
        self.fields.push((k, v));
        proof {
            assert(self@ =~~= map_insert(s, k@, v@));
        }
    }

    /// Value of the field named `k`, if one is held.
    pub fn get(&self, k: &[u8]) -> (r: Option<&Vec<u8>>)
        ensures
            match r {
                Some(v) => map_get(self@, k@) == Some(v@),
                None => map_get(self@, k@) is None,
            },
    {
        let ghost s = self@;
        let n = self.fields.len();
        let mut i: usize = 0;
        while i < n
            invariant
                n == self.fields.len(),
                self@ == s,
                0 <= i <= n,
                forall|t: int| 0 <= t < i ==> s[t].0 != k@,
            decreases n - i,
        {
            if eq_bytes(self.fields[i].0.as_slice(), k) {
                proof {
                    assert(s[i as int].0 == k@);
                    lemma_find_key_from_witness(s, k@, i as int);
                }
                return Some(&self.fields[i].1);
            }
            i = i + 1;
        }
        proof {
            lemma_find_key(s, k@);
            match find_key(s, k@) {
                Some(j) => { assert(s[j].0 != k@); },
                None => {},
            }
        }
        None
    }
}

/// If `s[w].0 == k` and no earlier pair is named `k`, then `find_key`
/// returns `w`.
pub proof fn lemma_find_key_from_witness(s: Seq<PairView>, k: Seq<u8>, w: int)
    requires
        0 <= w < s.len(),
        s[w].0 == k,
        forall|t: int| 0 <= t < w ==> s[t].0 != k,
    ensures
        find_key(s, k) == Some(w),
{
    lemma_find_key(s, k);
    match find_key(s, k) {
        None => {
            assert(s[w].0 != k);
        },
        Some(j) => {
            if j < w {
                assert(s[j].0 != k);
            }
            if j > w {
                assert(s[w].0 != k);
            }
        },
    }
}

/// Split one header field line at its first colon and trim the value.
pub fn parse_header_line(line: &[u8]) -> (r: (Vec<u8>, Vec<u8>))
    ensures
        (r.0@, r.1@) == header_pair_of(line@),
{
    let mut sep: Vec<u8> = Vec::new();
    sep.push(COLON);
    proof {
        assert(sep@ =~= colon());
    }
    match find_seq(line, &sep) {
        None => {
            proof {
                assert(line@.subrange(0, line@.len() as int) =~= line@);
            }
            let name = subrange_vec(line, 0, line.len());
            (name, Vec::new())
        },
        Some(i) => {
            proof {
                lemma_first_occurrence(line@, colon());
                assert(occurs_at(line@, colon(), i as int));
            }
            let line_len = line.len();
            let name = subrange_vec(line, 0, i);
            let raw = subrange_vec(line, i + 1, line_len);
            proof {
                assert(raw@ =~= line@.skip(i + 1));
            }
            let value = trim_bytes(raw.as_slice());
            (name, value)
        },
    }
}

/// Assemble a map from header field lines, inserting in order.
pub fn assemble_header_lines(map: &mut HeaderMap, lines: &Vec<Vec<u8>>, start: usize)
    requires
        start <= lines@.len(),
        old(map)@ == Seq::<PairView>::empty(),
    ensures
        final(map)@ == assemble(lines.deep_view().skip(start as int).map_values(
            |l: Seq<u8>| header_pair_of(l))),
{
    let ghost tail = lines.deep_view().skip(start as int);
    let n = lines.len();
    let mut i: usize = start;
    while i < n
        invariant
            start <= i <= n,
            n == lines@.len(),
            tail == lines.deep_view().skip(start as int),
            map@ == assemble(tail.take(i - start).map_values(|l: Seq<u8>| header_pair_of(l))),
        decreases n - i,
    {
        let (name, value) = parse_header_line(lines[i].as_slice());
        map.insert(name, value);
        proof {
            let f = |l: Seq<u8>| header_pair_of(l);
            let pre = tail.take(i - start).map_values(f);
            let post = tail.take(i + 1 - start).map_values(f);
            assert(post.drop_last() =~~= pre);
            assert(lines.deep_view()[i as int] =~= lines@[i as int]@);
            assert(tail[i - start] == lines.deep_view()[i as int]);
            assert(post.last() == f(lines@[i as int]@));
            assert(map@ == map_insert(assemble(pre), post.last().0, post.last().1));
        }
        i = i + 1;
    }
    proof {
        assert(tail.take(n - start) =~~= tail);
    }
}

} // verus!
