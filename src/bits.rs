//! Reading a 64-bit board word as a set of squares: bit `i` stands for square `i`.
use vstd::prelude::*;
use vstd::std_specs::bits::{u64_trailing_zeros, axiom_u64_trailing_zeros};

verus! {

/// Whether bit `i` of `x` is set (false outside `0..64`).
pub open spec fn has_bit(x: u64, i: int) -> bool {
    0 <= i < 64 && (x >> (i as u64)) & 1u64 == 1u64
}

/// The word whose only set bit is `i`.
pub open spec fn bit(i: int) -> u64 {
    1u64 << (i as u64)
}

pub broadcast proof fn lemma_has_bit_or(x: u64, y: u64, i: int)
    ensures
        #[trigger] has_bit(x | y, i) == (has_bit(x, i) || has_bit(y, i)),
{
    if 0 <= i < 64 {
        let j = i as u64;
        assert(((x | y) >> j) & 1u64 == 1u64 <==> ((x >> j) & 1u64 == 1u64 || (y >> j) & 1u64
            == 1u64)) by (bit_vector);
    }
}

pub broadcast proof fn lemma_has_bit_and(x: u64, y: u64, i: int)
    ensures
        #[trigger] has_bit(x & y, i) == (has_bit(x, i) && has_bit(y, i)),
{
    if 0 <= i < 64 {
        let j = i as u64;
        assert(((x & y) >> j) & 1u64 == 1u64 <==> ((x >> j) & 1u64 == 1u64 && (y >> j) & 1u64
            == 1u64)) by (bit_vector);
    }
}

pub broadcast proof fn lemma_has_bit_not(x: u64, i: int)
    ensures
        #[trigger] has_bit(!x, i) == (0 <= i < 64 && !has_bit(x, i)),
{
    if 0 <= i < 64 {
        let j = i as u64;
        assert(j < 64 ==> ((!x >> j) & 1u64 == 1u64 <==> !((x >> j) & 1u64 == 1u64)))
            by (bit_vector);
    }
}

pub broadcast proof fn lemma_has_bit_single(k: int, i: int)
    requires
        0 <= k < 64,
    ensures
        #[trigger] has_bit(bit(k), i) == (i == k),
{
    if 0 <= i < 64 {
        let j = i as u64;
        let m = k as u64;
        assert(m < 64 && j < 64 ==> (((1u64 << m) >> j) & 1u64 == 1u64 <==> j == m))
            by (bit_vector);
    }
}

pub broadcast proof fn lemma_has_bit_zero(i: int)
    ensures
        !#[trigger] has_bit(0u64, i),
{
    if 0 <= i < 64 {
        let j = i as u64;
        assert((0u64 >> j) & 1u64 != 1u64) by (bit_vector);
    }
}

pub broadcast proof fn lemma_has_bit_shl(x: u64, k: u64, i: int)
    requires
        k < 64,
    ensures
        #[trigger] has_bit(x << k, i) == (0 <= i < 64 && i >= k && has_bit(x, i - k)),
{
    if 0 <= i < 64 {
        let j = i as u64;
        assert(k < 64 && j < 64 ==> (((x << k) >> j) & 1u64 == 1u64 <==> (j >= k && (x >> ((j
            - k) as u64)) & 1u64 == 1u64))) by (bit_vector);
    }
}

pub broadcast proof fn lemma_has_bit_shr(x: u64, k: u64, i: int)
    requires
        k < 64,
    ensures
        #[trigger] has_bit(x >> k, i) == (0 <= i < 64 && has_bit(x, i + k)),
{
    if 0 <= i < 64 {
        let j = i as u64;
        assert(k < 64 && j < 64 ==> (((x >> k) >> j) & 1u64 == 1u64 <==> (j + k < 64 && (x >> ((j
            + k) as u64)) & 1u64 == 1u64))) by (bit_vector);
    }
}

/// A non-zero word has a set bit.
pub proof fn lemma_nonzero_has_bit(x: u64)
    ensures
        x != 0 <==> exists|i: int| 0 <= i < 64 && has_bit(x, i),
{
    if x != 0 {
        axiom_u64_trailing_zeros(x);
        let t = u64_trailing_zeros(x) as u64;
        assert(has_bit(x, t as int));
    } else {
        assert forall|i: int| 0 <= i < 64 implies !has_bit(x, i) by {
            lemma_has_bit_zero(i);
        }
    }
}

/// Moving a square's bit up (or down) a rank gives the bit of the square above (below).
pub proof fn lemma_bit_shift_rank(i: int)
    requires
        0 <= i < 64,
    ensures
        i < 56 ==> bit(i) << 8u64 == bit(i + 8),
        i >= 8 ==> bit(i) >> 8u64 == bit(i - 8),
{
    let j = i as u64;
    assert(j < 56 ==> (1u64 << j) << 8u64 == 1u64 << ((j + 8) as u64)) by (bit_vector);
    assert(8 <= j < 64 ==> (1u64 << j) >> 8u64 == 1u64 << ((j - 8) as u64)) by (bit_vector);
}

} // verus!
