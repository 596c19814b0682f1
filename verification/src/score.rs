//! Exact arithmetic for decayed proof-of-work scores.
//!
//! A stored message's effective score is `p - log2(size/100) - log2(age/100)`
//! with decay only above the 100-byte and 100-second floors.  With
//! `A = max(size, 100)`, `B = max(age, 100)` and `d = A * B` the score is
//! `p - log2(d) + log2(10000)`, so comparing two scores never needs real
//! numbers: `p1 - log2(d1) < p2 - log2(d2)` holds exactly when
//! `d2 * 2^p1 < d1 * 2^p2`.  A candidate's raw proof of work `p` is the
//! score of the pair `(p, 10000)`, since its decay term is zero.  All
//! comparisons here are exact integer decisions of those real inequalities.
use vstd::prelude::*;
use vstd::arithmetic::power2::{
    pow2,
    lemma_pow2_adds,
    lemma_pow2_pos,
    lemma_pow2_unfold,
    lemma_pow2_strictly_increases,
    lemma2_to64,
    lemma2_to64_rest,
};
use vstd::arithmetic::mul::{
    lemma_mul_inequality,
    lemma_mul_left_inequality,
    lemma_mul_strict_inequality,
    lemma_mul_strict_inequality_converse,
    lemma_mul_is_associative,
    lemma_mul_is_commutative,
};

verus! {

/// Upper bound used by the comparison routines: 2^127.
pub open spec fn d_limit() -> int {
    0x80000000000000000000000000000000
}

/// The decayed score `p1 - log2(d1/10000)` is strictly below
/// `p2 - log2(d2/10000)` exactly when `d2 * 2^p1 < d1 * 2^p2`.
pub open spec fn score_lt(p1: int, d1: int, p2: int, d2: int) -> bool
    recommends
        0 <= p1,
        0 <= p2,
        1 <= d1,
        1 <= d2,
{
    d2 * pow2(p1 as nat) < d1 * pow2(p2 as nat)
}

/// Floor of `log2(d/10000)` for `d >= 10000`.
pub open spec fn flog10k(d: int) -> int
    recommends
        d >= 10000,
    decreases d,
{
    if d < 20000 {
        0
    } else {
        1 + flog10k(d / 2)
    }
}

proof fn lemma_pow2_127()
    ensures
        pow2(127) == 0x80000000000000000000000000000000,
        pow2(128) == 0x100000000000000000000000000000000,
        pow2(14) == 0x4000,
{
    lemma2_to64();
    lemma2_to64_rest();
    lemma_pow2_adds(64, 63);
    lemma_pow2_adds(64, 64);
}

/// Compares `a * 2^e` against `b`, returning (strictly-below, at-most).
fn mul_pow2_cmp(a: u128, e: u64, b: u128) -> (r: (bool, bool))
    requires
        1 <= a < d_limit(),
        1 <= b < d_limit(),
        e <= 512,
    ensures
        r.0 == (a * pow2(e as nat) < b),
        r.1 == (a * pow2(e as nat) <= b),
{
    let mut acc: u128 = a;
    let mut i: u64 = 0;
    proof {
        lemma_pow2_127();
        lemma2_to64();
        assert(pow2(0) == 1);
        assert(a * pow2(e as nat) == acc * pow2((e - i) as nat));
    }
    while i < e
        invariant
            i <= e,
            e <= 512,
            1 <= acc,
            1 <= b < d_limit(),
            a * pow2(e as nat) == acc * pow2((e - i) as nat),
        decreases e - i,
    {
        proof {
            lemma_pow2_pos((e - i) as nat);
            lemma_pow2_strictly_increases(0, (e - i) as nat);
            lemma2_to64();
        }
        if acc >= b {
            proof {
                // acc * 2^(e-i) >= 2 * acc >= b + 1 since acc >= b >= 1
                lemma_mul_left_inequality(acc as int, 2, pow2((e - i) as nat) as int);
                assert(acc * pow2((e - i) as nat) >= acc * 2);
            }
            return (false, false);
        }
        proof {
            lemma_pow2_unfold((e - i) as nat);
            lemma_mul_is_associative(acc as int, 2, pow2((e - i - 1) as nat) as int);
            lemma_mul_is_commutative(acc as int, 2);
            lemma_mul_is_commutative(
                acc as int,
                2 * pow2((e - i - 1) as nat) as int,
            );
            assert(acc * pow2((e - i) as nat) == (acc * 2) * pow2((e - i - 1) as nat));
        }
        acc = acc * 2;
        i = i + 1;
    }
    proof {
        lemma2_to64();
        assert(pow2(0) == 1);
        assert((e - i) as nat == 0);
        assert(acc * pow2((e - i) as nat) == acc * 1);
        assert(a * pow2(e as nat) == acc);
    }
    (acc < b, acc <= b)
}

/// Decides whether the score `(p1, d1)` is strictly below the score
/// `(p2, d2)`, exactly, over the integers.
pub fn score_lt_exec(p1: u64, d1: u128, p2: u64, d2: u128) -> (r: bool)
    requires
        p1 <= 512,
        p2 <= 512,
        1 <= d1 < d_limit(),
        1 <= d2 < d_limit(),
    ensures
        r == score_lt(p1 as int, d1 as int, p2 as int, d2 as int),
{
    if p1 >= p2 {
        let e = p1 - p2;
        let (lt, _) = mul_pow2_cmp(d2, e, d1);
        proof {
            lemma_pow2_adds((p1 - p2) as nat, p2 as nat);
            lemma_pow2_pos(p2 as nat);
            let k = pow2(p2 as nat) as int;
            let x = d2 * pow2((p1 - p2) as nat);
            let y = d1 as int;
            lemma_mul_is_associative(d2 as int, pow2((p1 - p2) as nat) as int, k);
            if x < y {
                lemma_mul_strict_inequality(x, y, k);
            }
            if x * k < y * k {
                lemma_mul_strict_inequality_converse(x, y, k);
            }
        }
        lt
    } else {
        let e = p2 - p1;
        let (_, le) = mul_pow2_cmp(d1, e, d2);
        proof {
            lemma_pow2_adds((p2 - p1) as nat, p1 as nat);
            lemma_pow2_pos(p1 as nat);
            let k = pow2(p1 as nat) as int;
            let x = d1 * pow2((p2 - p1) as nat);
            let y = d2 as int;
            lemma_mul_is_associative(d1 as int, pow2((p2 - p1) as nat) as int, k);
            if y < x {
                lemma_mul_strict_inequality(y, x, k);
            }
            if y * k < x * k {
                lemma_mul_strict_inequality_converse(y, x, k);
            }
        }
        !le
    }
}

/// Floor of `log2(d/10000)`, computed by halving.
pub fn flog10k_exec(d: u128) -> (r: u64)
    requires
        10000 <= d,
    ensures
        r == flog10k(d as int),
        r <= 114,
{
    let mut x: u128 = d;
    let mut k: u64 = 0;
    proof {
        lemma2_to64();
        assert(pow2(0) == 1);
        assert(x * pow2(0) == x * 1) by {
            lemma_mul_is_commutative(x as int, 1);
        }
    }
    while x >= 20000
        invariant
            10000 <= x,
            flog10k(d as int) == k + flog10k(x as int),
            x * pow2(k as nat) <= d,
            k <= 114,
        decreases x,
    {
        proof {
            lemma_pow2_127();
            lemma2_to64();
            // k stays below the bound: 2^14 * 2^k <= 20000 * 2^k <= x * 2^k <= d < 2^128
            lemma_pow2_adds(14, k as nat);
            lemma_mul_inequality(0x4000, x as int, pow2(k as nat) as int);
            assert(pow2(k as nat + 14) <= d) by {
                lemma_mul_is_commutative(0x4000, pow2(k as nat) as int);
                lemma_mul_is_commutative(x as int, pow2(k as nat) as int);
            }
            if k as nat + 14 > 128 {
                lemma_pow2_strictly_increases(128, k as nat + 14);
            }
            assert(k + 14 <= 128);
            // the next power still bounds d
            lemma_pow2_unfold((k + 1) as nat);
            assert((x / 2) * (2 * pow2(k as nat)) == ((x / 2) * 2) * pow2(k as nat)) by {
                lemma_mul_is_associative(x as int / 2, 2, pow2(k as nat) as int);
            }
            lemma_mul_inequality((x as int / 2) * 2, x as int, pow2(k as nat) as int);
        }
        x = x / 2;
        k = k + 1;
    }
    k
}

/// The reported admission threshold: the ceiling of the weakest entry's
/// decayed score `p - log2(d/10000)`, which is `p - floor(log2(d/10000))`.
pub open spec fn required_threshold(p: int, d: int) -> int
    recommends
        0 <= p,
        10000 <= d,
{
    p - flog10k(d)
}

/// Computes the reported admission threshold exactly.
pub fn required_threshold_exec(p: u64, d: u128) -> (r: i64)
    requires
        p <= 512,
        10000 <= d,
    ensures
        r == required_threshold(p as int, d as int),
{
    let f = flog10k_exec(d);
    p as i64 - f as i64
}

} // verus!
