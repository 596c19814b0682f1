//! Proof-of-work measurement: leading zero bits of a digest.
//!
//! The raw proof of work of a message is the number of consecutive zero
//! bits at the most significant end of its digest, scanning across byte
//! boundaries and stopping at the first set bit.
use vstd::prelude::*;

verus! {

/// Leading zero bits of a single byte.
pub open spec fn lz_byte(b: u8) -> int {
    if b >= 128 {
        0
    } else if b >= 64 {
        1
    } else if b >= 32 {
        2
    } else if b >= 16 {
        3
    } else if b >= 8 {
        4
    } else if b >= 4 {
        5
    } else if b >= 2 {
        6
    } else if b >= 1 {
        7
    } else {
        8
    }
}

/// Leading zero bits of a byte sequence, most significant byte first.
pub open spec fn leading_zero_bits(s: Seq<u8>) -> int
    decreases s.len(),
{
    if s.len() == 0 {
        0
    } else if s[0] == 0 {
        8 + leading_zero_bits(s.drop_first())
    } else {
        lz_byte(s[0])
    }
}

pub proof fn lemma_leading_zero_bits_bound(s: Seq<u8>)
    ensures
        0 <= leading_zero_bits(s) <= 8 * s.len(),
    decreases s.len(),
{
    if s.len() > 0 {
        lemma_leading_zero_bits_bound(s.drop_first());
    }
}

/// Counts the leading zero bits of a digest, scanning from the first byte.
pub fn get_leading_zeros(arr: &Vec<u8>) -> (r: u64)
    requires
        8 * arr@.len() <= u64::MAX,
    ensures
        r == leading_zero_bits(arr@),
        r <= 8 * arr@.len(),
{
    let n = arr.len();
    let mut i: usize = 0;
    proof {
        assert(arr@.skip(0) =~= arr@);
    }
    while i < n
        invariant
            i <= n,
            n == arr@.len(),
            8 * n <= u64::MAX,
            leading_zero_bits(arr@) == 8 * i + leading_zero_bits(arr@.skip(i as int)),
            forall|j: int| 0 <= j < i ==> arr@[j] == 0,
        decreases n - i,
    {
        let b = arr[i];
        proof {
            assert(arr@.skip(i as int)[0] == arr@[i as int]);
            assert(arr@.skip(i as int).drop_first() =~= arr@.skip(i as int + 1));
            lemma_leading_zero_bits_bound(arr@.skip(i as int));
        }
        if b != 0 {
            let lz: u64 = if b >= 128 {
                0
            } else if b >= 64 {
                1
            } else if b >= 32 {
                2
            } else if b >= 16 {
                3
            } else if b >= 8 {
                4
            } else if b >= 4 {
                5
            } else if b >= 2 {
                6
            } else {
                7
            };
            proof {
                lemma_leading_zero_bits_bound(arr@);
            }
            return (8 * i as u64) + lz;
        }
        i += 1;
    }
    proof {
        assert(arr@.skip(n as int) =~= Seq::<u8>::empty());
    }
    8 * n as u64
}

} // verus!
