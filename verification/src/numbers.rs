//! Decimal representation of unsigned integers on the wire: rendering a
//! number as ASCII digits and reading digit strings back, with the
//! round-trip fact that ties the two together.

use vstd::prelude::*;

verus! {

/// ASCII code of the digit `0`.
pub const DIGIT_0: u8 = 48;

/// ASCII code of the digit `9`.
pub const DIGIT_9: u8 = 57;

/// The byte is an ASCII digit.
pub open spec fn is_digit(b: u8) -> bool {
    DIGIT_0 <= b <= DIGIT_9
}

/// The bytes are a non-empty run of ASCII digits.
pub open spec fn is_digits(s: Seq<u8>) -> bool {
    s.len() > 0 && forall|i: int| 0 <= i < s.len() ==> is_digit(s[i])
}

/// Numeric value of a digit string, most significant digit first.
pub open spec fn dec_value(s: Seq<u8>) -> nat
    decreases s.len(),
{
    if s.len() == 0 {
        0
    } else {
        dec_value(s.drop_last()) * 10 + (if s.last() >= DIGIT_0 { (s.last() - DIGIT_0) as nat } else { 0 })
    }
}

/// Canonical decimal rendering of `n`: no leading zeros, except that zero
/// itself is the single digit `0`.
pub open spec fn dec_rep(n: nat) -> Seq<u8>
    decreases n,
{
    if n < 10 {
        seq![(DIGIT_0 + n) as u8]
    } else {
        dec_rep(n / 10).push((DIGIT_0 + n % 10) as u8)
    }
}

/// A decimal rendering consists of digits only.
pub proof fn lemma_dec_rep_digits(n: nat)
    ensures
        is_digits(dec_rep(n)),
        dec_rep(n).len() >= 1,
    decreases n,
{
    if n >= 10 {
        lemma_dec_rep_digits(n / 10);
    }
}

/// Reading a decimal rendering back yields the number that was rendered.
pub proof fn lemma_dec_round_trip(n: nat)
    ensures
        dec_value(dec_rep(n)) == n,
    decreases n,
{
    if n < 10 {
        assert(dec_rep(n).drop_last() =~= Seq::<u8>::empty());
        assert(dec_value(Seq::<u8>::empty()) == 0);
        assert(dec_rep(n).last() == (DIGIT_0 + n) as u8);
    } else {
        lemma_dec_round_trip(n / 10);
        assert(dec_rep(n).drop_last() =~= dec_rep(n / 10));
        assert(dec_rep(n).last() == (DIGIT_0 + n % 10) as u8);
        assert(dec_value(dec_rep(n)) == (n / 10) * 10 + n % 10);
    }
}

/// Render `n` as ASCII decimal digits.
pub fn to_decimal(n: u64) -> (r: Vec<u8>)
    ensures
        r@ == dec_rep(n as nat),
{
    let mut rev: Vec<u8> = Vec::new();
    let mut cur: u64 = n;
    while cur >= 10
        invariant
            dec_rep(n as nat) == dec_rep(cur as nat) + rev@.reverse(),
        decreases cur,
    {
        let d: u8 = (cur % 10) as u8;
        let ghost prev = rev@;
        rev.push(DIGIT_0 + d);
        proof {
            assert(rev@.reverse() =~= seq![(DIGIT_0 + d) as u8] + prev.reverse());
            assert(dec_rep(cur as nat) == dec_rep((cur / 10) as nat).push((DIGIT_0 + d) as u8));
            assert(dec_rep(cur as nat) + prev.reverse()
                =~= dec_rep((cur / 10) as nat) + rev@.reverse());
        }
        cur = cur / 10;
    }
    let ghost prev = rev@;
    rev.push(DIGIT_0 + (cur % 10) as u8);
    proof {
        assert(rev@.reverse() =~= seq![(DIGIT_0 + (cur as nat) % 10) as u8] + prev.reverse());
        assert(dec_rep(cur as nat) =~= seq![(DIGIT_0 + (cur as nat) % 10) as u8]);
        assert(rev@.reverse() =~= dec_rep(n as nat));
    }
    let mut out: Vec<u8> = Vec::new();
    let mut k: usize = rev.len();
    while k > 0
        invariant
            k <= rev@.len(),
            rev@.reverse() == dec_rep(n as nat),
            out@ == rev@.reverse().take(rev@.len() - k),
        decreases k,
    {
        k = k - 1;
        out.push(rev[k]);
        proof {
            assert(out@ =~= rev@.reverse().take(rev@.len() - k));
        }
    }
    proof {
        assert(out@ =~= rev@.reverse());
    }
    out
}

/// Smaller of a mathematical value and a machine bound.
pub open spec fn capped(n: nat, cap: nat) -> nat {
    if n <= cap { n } else { cap }
}

/// Read a digit string as a number, capping the result at `usize::MAX`.
/// Returns `None` exactly when the bytes are not a non-empty run of digits.
pub fn parse_decimal(s: &[u8]) -> (r: Option<usize>)
    ensures
        r is Some <==> is_digits(s@),
        r matches Some(v) ==> v == capped(dec_value(s@), usize::MAX as nat),
{
    if s.len() == 0 {
        return None;
    }
    let mut acc: usize = 0;
    let mut k: usize = 0;
    while k < s.len()
        invariant
            0 <= k <= s@.len(),
            forall|i: int| 0 <= i < k ==> is_digit(s@[i]),
            acc == capped(dec_value(s@.take(k as int)), usize::MAX as nat),
        decreases s@.len() - k,
    {
        let b = s[k];
        if b < DIGIT_0 || b > DIGIT_9 {
            return None;
        }
        let d: usize = (b - DIGIT_0) as usize;
        let ghost pre = s@.take(k as int);
        let ghost post = s@.take(k + 1);
        proof {
            assert(post.drop_last() =~= pre);
            assert(post.last() == s@[k as int]);
        }
        if acc <= (usize::MAX - d) / 10 {
            proof {
                if dec_value(pre) > usize::MAX {
                    assert(acc == usize::MAX);
                    assert(usize::MAX > (usize::MAX - d) / 10) by (nonlinear_arith)
                        requires
                            d <= 9,
                    {}
                }
                assert(acc == dec_value(pre));
                assert(acc * 10 + d <= usize::MAX) by (nonlinear_arith)
                    requires
                        acc <= (usize::MAX - d) / 10,
                        d <= 9,
                {}
                assert(dec_value(post) == acc * 10 + d);
            }
            acc = acc * 10 + d;
        } else {
            proof {
                if dec_value(pre) <= usize::MAX {
                    assert(acc == dec_value(pre));
                    assert(acc * 10 + d > usize::MAX) by (nonlinear_arith)
                        requires
                            acc > (usize::MAX - d) / 10,
                            d <= 9,
                    {}
                    assert(dec_value(post) > usize::MAX);
                } else {
                    assert(dec_value(pre) * 10 + d > usize::MAX) by (nonlinear_arith)
                        requires
                            dec_value(pre) > usize::MAX,
                    {}
                    assert(dec_value(post) > usize::MAX);
                }
            }
            acc = usize::MAX;
        }
        k = k + 1;
    }
    proof {
        assert(s@.take(s@.len() as int) =~= s@);
    }
    Some(acc)
}

} // verus!
