//! Byte-sequence scanning primitives shared by the tokenizers: substring
//! occurrence, first-occurrence search, slice copying and concatenation.

use vstd::prelude::*;

verus! {

/// ASCII carriage return.
pub const CR: u8 = 13;

/// ASCII line feed.
pub const LF: u8 = 10;

/// ASCII space.
pub const SP: u8 = 32;

/// ASCII colon.
pub const COLON: u8 = 58;

/// ASCII full stop.
pub const DOT: u8 = 46;

/// ASCII forward slash.
pub const SLASH: u8 = 47;

/// ASCII equals sign.
pub const EQUALS: u8 = 61;

/// ASCII percent sign.
pub const PERCENT: u8 = 37;

/// The needle `n` occurs in `h` starting at index `i`.
pub open spec fn occurs_at(h: Seq<u8>, n: Seq<u8>, i: int) -> bool {
    0 <= i && i + n.len() <= h.len() && h.subrange(i, i + n.len()) == n
}

/// The needle `n` occurs somewhere in `h`.
pub open spec fn contains_seq(h: Seq<u8>, n: Seq<u8>) -> bool {
    exists|i: int| occurs_at(h, n, i)
}

/// Index of the first occurrence of `n` in `h`, if any, as the scan from
/// the left finds it.
pub open spec fn first_occurrence(h: Seq<u8>, n: Seq<u8>) -> Option<int>
    decreases h.len(),
{
    if n.len() == 0 || h.len() < n.len() {
        None
    } else if h.subrange(0, n.len() as int) == n {
        Some(0)
    } else {
        match first_occurrence(h.skip(1), n) {
            None => None,
            Some(j) => Some(j + 1),
        }
    }
}

/// `first_occurrence` returns the least occurrence index, or `None` when
/// the needle does not occur.
pub proof fn lemma_first_occurrence(h: Seq<u8>, n: Seq<u8>)
    requires
        n.len() >= 1,
    ensures
        match first_occurrence(h, n) {
            Some(i) => occurs_at(h, n, i) && (forall|j: int| 0 <= j < i ==> !occurs_at(h, n, j)),
            None => forall|j: int| !occurs_at(h, n, j),
        },
    decreases h.len(),
{
    if h.len() < n.len() {
        assert(forall|j: int| !occurs_at(h, n, j));
    } else if h.subrange(0, n.len() as int) == n {
        assert(occurs_at(h, n, 0));
    } else {
        lemma_first_occurrence(h.skip(1), n);
        assert forall|j: int| 0 <= j && j + 1 + n.len() <= h.len() implies
            (occurs_at(h.skip(1), n, j) <==> occurs_at(h, n, j + 1)) by {
            assert(h.skip(1).subrange(j, j + n.len()) =~= h.subrange(j + 1, j + 1 + n.len()));
        }
        assert(!occurs_at(h, n, 0));
        match first_occurrence(h.skip(1), n) {
            None => {
                assert forall|j: int| !occurs_at(h, n, j) by {
                    if 1 <= j && j + n.len() <= h.len() {
                        assert(!occurs_at(h.skip(1), n, j - 1));
                    }
                }
            },
            Some(j) => {
                assert(occurs_at(h, n, j + 1));
                assert forall|t: int| 0 <= t < j + 1 implies !occurs_at(h, n, t) by {
                    if 1 <= t {
                        assert(!occurs_at(h.skip(1), n, t - 1));
                    }
                }
            },
        }
    }
}

/// If the needle occurs at `w`, the first occurrence exists and is no
/// later than `w`.
pub proof fn lemma_occurrence_found(h: Seq<u8>, n: Seq<u8>, w: int)
    requires
        n.len() >= 1,
        occurs_at(h, n, w),
    ensures
        first_occurrence(h, n) matches Some(i) && 0 <= i <= w && occurs_at(h, n, i)
            && (forall|j: int| 0 <= j < i ==> !occurs_at(h, n, j)),
{
    lemma_first_occurrence(h, n);
    match first_occurrence(h, n) {
        None => {
            assert(!occurs_at(h, n, w));
        },
        Some(i) => {
            if i > w {
                assert(!occurs_at(h, n, w));
            }
        },
    }
}

/// No byte of `s` equals `b`.
pub open spec fn no_byte(s: Seq<u8>, b: u8) -> bool {
    forall|i: int| 0 <= i < s.len() ==> s[i] != b
}

/// A one-byte needle occurs at `i` exactly when that byte stands there.
pub proof fn lemma_occurs_single(s: Seq<u8>, b: u8, i: int)
    ensures
        occurs_at(s, seq![b], i) <==> 0 <= i < s.len() && s[i] == b,
{
    if 0 <= i < s.len() {
        assert(s.subrange(i, i + 1) =~= seq![s[i]]);
        if s[i] == b {
            assert(s.subrange(i, i + 1) =~= seq![b]);
        } else {
            assert(s.subrange(i, i + 1)[0] != b);
            assert(seq![b][0] == b);
        }
    }
}

/// The first occurrence of the byte `b` is the first index that holds it.
pub proof fn lemma_first_single(s: Seq<u8>, b: u8, w: int)
    requires
        0 <= w < s.len(),
        s[w] == b,
        forall|i: int| 0 <= i < w ==> s[i] != b,
    ensures
        first_occurrence(s, seq![b]) == Some(w),
{
    assert forall|i: int| (occurs_at(s, seq![b], i) <==> 0 <= i < s.len() && s[i] == b) by {
        lemma_occurs_single(s, b, i);
    }
    lemma_first_occurrence(s, seq![b]);
    match first_occurrence(s, seq![b]) {
        None => {
            assert(!occurs_at(s, seq![b], w));
        },
        Some(f) => {
            if f < w {
                assert(s[f] != b);
            }
            if f > w {
                assert(!occurs_at(s, seq![b], w));
            }
        },
    }
}

/// A witnessed occurrence before which none occurs is the first.
pub proof fn lemma_first_from_witness(h: Seq<u8>, n: Seq<u8>, w: int)
    requires
        n.len() >= 1,
        occurs_at(h, n, w),
        forall|j: int| 0 <= j < w ==> !occurs_at(h, n, j),
    ensures
        first_occurrence(h, n) == Some(w),
{
    lemma_first_occurrence(h, n);
    match first_occurrence(h, n) {
        None => {
            assert(!occurs_at(h, n, w));
        },
        Some(f) => {
            if f < w {
                assert(!occurs_at(h, n, f));
            }
            if f > w {
                assert(!occurs_at(h, n, w));
            }
        },
    }
}

/// Where a needle occurs, its first byte stands.
pub proof fn lemma_occurs_head(s: Seq<u8>, n: Seq<u8>, i: int)
    requires
        occurs_at(s, n, i),
        n.len() >= 1,
    ensures
        s[i] == n[0],
{
    assert(s.subrange(i, i + n.len())[0] == n[0]);
}

/// Occurrences wholly inside the right part of a concatenation shift by
/// the left part's length.
pub proof fn lemma_occurs_shift(a: Seq<u8>, b: Seq<u8>, n: Seq<u8>, k: int)
    requires
        0 <= k,
    ensures
        occurs_at(a + b, n, a.len() + k) <==> occurs_at(b, n, k),
{
    if k + n.len() <= b.len() {
        assert((a + b).subrange(a.len() + k, a.len() + k + n.len()) =~= b.subrange(
            k,
            k + n.len(),
        ));
    }
}

/// Whether `h[i..]` starts with `n`, checked executably.
fn starts_with_at(h: &[u8], n: &[u8], i: usize) -> (r: bool)
    requires
        i + n@.len() <= h@.len(),
    ensures
        r == (h@.subrange(i as int, i + n@.len()) == n@),
{
    let hl = h.len();
    let mut k: usize = 0;
    while k < n.len()
        invariant
            0 <= k <= n@.len(),
            i + n@.len() <= h@.len(),
            h@.len() == hl,
            forall|t: int| 0 <= t < k ==> h@[i + t] == n@[t],
        decreases n@.len() - k,
    {
        if h[i + k] != n[k] {
            assert(h@.subrange(i as int, i + n@.len())[k as int] != n@[k as int]);
            return false;
        }
        k = k + 1;
    }
    assert(h@.subrange(i as int, i + n@.len()) =~= n@);
    true
}

/// Find the first occurrence of `n` in `h`.
pub fn find_seq(h: &[u8], n: &[u8]) -> (r: Option<usize>)
    requires
        n@.len() >= 1,
    ensures
        match r {
            Some(i) => first_occurrence(h@, n@) == Some(i as int),
            None => first_occurrence(h@, n@) is None,
        },
{
    if h.len() < n.len() {
        proof {
            assert(forall|i: int| !occurs_at(h@, n@, i));
            lemma_first_occurrence(h@, n@);
            match first_occurrence(h@, n@) {
                Some(f) => assert(occurs_at(h@, n@, f)),
                None => {},
            }
        }
        return None;
    }
    let mut i: usize = 0;
    while i <= h.len() - n.len()
        invariant
            0 <= i <= h@.len() - n@.len() + 1,
            n@.len() >= 1,
            n@.len() <= h@.len(),
            forall|j: int| 0 <= j < i ==> !occurs_at(h@, n@, j),
        decreases h@.len() - i,
    {
        if starts_with_at(h, n, i) {
            proof {
                assert(occurs_at(h@, n@, i as int));
                lemma_occurrence_found(h@, n@, i as int);
                let f = first_occurrence(h@, n@)->Some_0;
                if f < i {
                    assert(!occurs_at(h@, n@, f));
                }
            }
            return Some(i);
        }
        i = i + 1;
    }
    proof {
        assert forall|j: int| !occurs_at(h@, n@, j) by {
            if 0 <= j && j + n@.len() <= h@.len() {
                assert(j < i);
            }
        }
        lemma_first_occurrence(h@, n@);
        match first_occurrence(h@, n@) {
            Some(f) => assert(occurs_at(h@, n@, f)),
            None => {},
        }
    }
    None
}

/// Copy `h[lo..hi]` into a fresh vector.
pub fn subrange_vec(h: &[u8], lo: usize, hi: usize) -> (r: Vec<u8>)
    requires
        lo <= hi <= h@.len(),
    ensures
        r@ == h@.subrange(lo as int, hi as int),
{
    let mut out: Vec<u8> = Vec::new();
    let mut k: usize = lo;
    while k < hi
        invariant
            lo <= k <= hi <= h@.len(),
            out@ == h@.subrange(lo as int, k as int),
        decreases hi - k,
    {
        out.push(h[k]);
        assert(out@ =~= h@.subrange(lo as int, k + 1));
        k = k + 1;
    }
    out
}

/// Append all of `s` onto `out`.
pub fn append_bytes(out: &mut Vec<u8>, s: &[u8])
    ensures
        final(out)@ == old(out)@ + s@,
{
    let mut k: usize = 0;
    while k < s.len()
        invariant
            0 <= k <= s@.len(),
            out@ == old(out)@ + s@.subrange(0, k as int),
        decreases s@.len() - k,
    {
        out.push(s[k]);
        assert(out@ =~= old(out)@ + s@.subrange(0, k + 1));
        k = k + 1;
    }
    assert(out@ =~= old(out)@ + s@);
}

/// Index of the last occurrence of the byte `b` in `s`, if any.
pub open spec fn rlast(s: Seq<u8>, b: u8) -> Option<int>
    decreases s.len(),
{
    if s.len() == 0 {
        None
    } else if s.last() == b {
        Some(s.len() - 1)
    } else {
        rlast(s.drop_last(), b)
    }
}

/// Find the last occurrence of the byte `b` in `s`.
pub fn rfind_byte(s: &[u8], b: u8) -> (r: Option<usize>)
    ensures
        match r {
            Some(i) => i < s@.len() && rlast(s@, b) == Some(i as int),
            None => rlast(s@, b) is None,
        },
{
    let mut k: usize = s.len();
    proof {
        assert(s@.subrange(0, s@.len() as int) =~= s@);
    }
    while k > 0
        invariant
            0 <= k <= s@.len(),
            rlast(s@, b) == rlast(s@.subrange(0, k as int), b),
        decreases k,
    {
        let ghost w = s@.subrange(0, k as int);
        if s[k - 1] == b {
            proof {
                assert(w.last() == b);
            }
            return Some(k - 1);
        }
        proof {
            assert(w.drop_last() =~= s@.subrange(0, k - 1));
        }
        k = k - 1;
    }
    proof {
        assert(s@.subrange(0, 0) =~= Seq::<u8>::empty());
    }
    None
}

/// Copy a whole slice into a fresh vector.
pub fn slice_to_vec(s: &[u8]) -> (r: Vec<u8>)
    ensures
        r@ == s@,
{
    let r = subrange_vec(s, 0, s.len());
    proof {
        assert(s@.subrange(0, s@.len() as int) =~= s@);
    }
    r
}

/// Compare two byte strings for equality.
pub fn eq_bytes(a: &[u8], b: &[u8]) -> (r: bool)
    ensures
        r == (a@ == b@),
{
    if a.len() != b.len() {
        assert(a@ != b@) by {
            assert(a@.len() != b@.len());
        }
        return false;
    }
    let mut k: usize = 0;
    while k < a.len()
        invariant
            0 <= k <= a@.len(),
            a@.len() == b@.len(),
            forall|i: int| 0 <= i < k ==> a@[i] == b@[i],
        decreases a@.len() - k,
    {
        if a[k] != b[k] {
            return false;
        }
        k = k + 1;
    }
    proof {
        assert(a@ =~= b@);
    }
    true
}

/// The byte is ASCII whitespace: space, or one of the control characters
/// tab through carriage return.
pub open spec fn is_ws(b: u8) -> bool {
    b == SP || (9 <= b <= 13)
}

/// The byte string with leading and trailing ASCII whitespace removed.
pub open spec fn trim(s: Seq<u8>) -> Seq<u8>
    decreases s.len(),
{
    if s.len() == 0 {
        s
    } else if is_ws(s[0]) {
        trim(s.skip(1))
    } else if is_ws(s.last()) {
        trim(s.drop_last())
    } else {
        s
    }
}

/// A byte string that neither starts nor ends with whitespace is fixed by
/// `trim`.
pub proof fn lemma_trim_fixed(s: Seq<u8>)
    requires
        s.len() > 0 ==> !is_ws(s[0]) && !is_ws(s.last()),
    ensures
        trim(s) == s,
{
}

/// Removing one leading space before an already-trimmed byte string gives
/// that byte string back.
pub proof fn lemma_trim_space_prefix(v: Seq<u8>)
    requires
        trim(v) == v,
    ensures
        trim(seq![SP] + v) == v,
{
    let s = seq![SP] + v;
    assert(is_ws(s[0]));
    assert(s.skip(1) =~= v);
}

/// Remove leading and trailing ASCII whitespace.
pub fn trim_bytes(s: &[u8]) -> (r: Vec<u8>)
    ensures
        r@ == trim(s@),
{
    let mut lo: usize = 0;
    let mut hi: usize = s.len();
    proof {
        assert(s@.subrange(0, s@.len() as int) =~= s@);
    }
    while lo < hi
        invariant
            0 <= lo <= hi <= s@.len(),
            trim(s@) == trim(s@.subrange(lo as int, hi as int)),
        decreases hi - lo,
    {
        let ghost w = s@.subrange(lo as int, hi as int);
        if is_ws_byte(s[lo]) {
            proof {
                assert(w.skip(1) =~= s@.subrange(lo + 1, hi as int));
            }
            lo = lo + 1;
        } else if is_ws_byte(s[hi - 1]) {
            proof {
                assert(w.drop_last() =~= s@.subrange(lo as int, hi - 1));
            }
            hi = hi - 1;
        } else {
            proof {
                assert(trim(w) == w);
            }
            return subrange_vec(s, lo, hi);
        }
    }
    proof {
        assert(s@.subrange(lo as int, lo as int) =~= Seq::<u8>::empty());
    }
    Vec::new()
}

/// Executable test for ASCII whitespace.
fn is_ws_byte(b: u8) -> (r: bool)
    ensures
        r == is_ws(b),
{
    b == SP || (9 <= b && b <= 13)
}

} // verus!
