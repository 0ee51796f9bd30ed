//! Bit encodings of squares, files and ranks.
use vstd::prelude::*;
use crate::bits::{
    bit, has_bit, lemma_has_bit_and, lemma_has_bit_not, lemma_has_bit_or, lemma_has_bit_single,
    lemma_has_bit_zero,
};
use crate::definitions::{File, Rank, Square, file_of, rank_of};

verus! {

broadcast use {
    lemma_has_bit_or,
    lemma_has_bit_and,
    lemma_has_bit_not,
    lemma_has_bit_single,
    lemma_has_bit_zero,
};

/// The set of squares that a square stands for: its own bit, or nothing for `Invalid`.
pub open spec fn square_mask(s: Square) -> u64 {
    if s == Square::Invalid {
        0u64
    } else {
        bit(s as int)
    }
}

/// The square whose set is exactly `d`, or `Invalid` when `d` is not a single bit.
pub open spec fn square_of_mask(d: u64) -> Square {
    if exists|s: Square| s != Square::Invalid && #[trigger] square_mask(s) == d {
        choose|s: Square| s != Square::Invalid && #[trigger] square_mask(s) == d
    } else {
        Square::Invalid
    }
}

pub proof fn lemma_bit_injective(i: int, j: int)
    requires
        0 <= i < 64,
        0 <= j < 64,
        bit(i) == bit(j),
    ensures
        i == j,
{
    lemma_has_bit_single(i, i);
    lemma_has_bit_single(j, i);
}

proof fn lemma_file_mask_bits(f: u64, j: u64)
    requires
        f < 8,
        j < 64,
    ensures
        ((0x0101010101010101u64 << f) >> j) & 1u64 == 1u64 <==> j % 8 == f,
{
    assert(f < 8 && j < 64 ==> (((0x0101010101010101u64 << f) >> j) & 1u64 == 1u64 <==> j % 8
        == f)) by (bit_vector);
}

proof fn lemma_rank_mask_bits(r: u64, j: u64)
    requires
        r < 8,
        j < 64,
    ensures
        ((0xFFu64 << (8 * r)) >> j) & 1u64 == 1u64 <==> j / 8 == r,
{
    assert(r < 8 && j < 64 ==> (((0xFFu64 << (8 * r)) >> j) & 1u64 == 1u64 <==> j / 8 == r))
        by (bit_vector);
}

impl Square {
    /// The one-bit set of this square; `Invalid` gives the empty set.
    pub fn to_u64(&self) -> (r: u64)
        ensures
            r == square_mask(*self),
            forall|i: int| has_bit(r, i) <==> (*self != Square::Invalid && i == *self as int),
    {
        if *self == Square::Invalid {
            0
        } else {
            let i = self.index();
            let r = 1u64 << i;
            proof {
                assert(r == bit(i as int));
                assert forall|j: int| has_bit(r, j) <==> j == i by {
                    lemma_has_bit_single(i as int, j);
                }
            }
            r
        }
    }

    /// The square whose one-bit set is `d`; `Invalid` when `d` is zero or has more than one bit.
    pub fn from_u64(d: u64) -> (r: Square)
        ensures
            r == square_of_mask(d),
            r != Square::Invalid <==> exists|i: int| 0 <= i < 64 && d == #[trigger] bit(i),
            r != Square::Invalid ==> d == bit(r as int),
    {
        let mut i: u64 = 0;
        while i < 64
            invariant
                i <= 64,
                forall|j: int| 0 <= j < i ==> d != #[trigger] bit(j),
            decreases 64 - i,
        {
            if d == 1u64 << i {
                let r = Square::from_index(i);
                proof {
                    assert(d == bit(i as int));
                    assert forall|j: int| 0 <= j < 64 && d == bit(j) implies j == i by {
                        lemma_bit_injective(i as int, j);
                    }
                    assert(square_mask(r) == d);
                    let c = choose|s: Square| s != Square::Invalid && #[trigger] square_mask(s) == d;
                    lemma_bit_injective(c as int, i as int);
                    assert(c == r);
                }
                return r;
            }
            i = i + 1;
        }
        Square::Invalid
    }
}

impl File {
    /// The set of the eight squares on this file.
    pub fn to_u64(&self) -> (r: u64)
        ensures
            forall|i: int| has_bit(r, i) <==> (0 <= i < 64 && file_of(i) == *self as int),
    {
        let f = *self as u64;
        let r = 0x0101010101010101u64 << f;
        proof {
            assert forall|i: int| has_bit(r, i) <==> (0 <= i < 64 && file_of(i) == f) by {
                if 0 <= i < 64 {
                    lemma_file_mask_bits(f, i as u64);
                }
            }
        }
        r
    }
}

impl Rank {
    /// The set of the eight squares on this rank.
    pub fn to_u64(&self) -> (r: u64)
        ensures
            forall|i: int| has_bit(r, i) <==> (0 <= i < 64 && rank_of(i) == *self as int),
    {
        let k = *self as u64;
        let r = 0xFFu64 << (8 * k);
        proof {
            assert forall|i: int| has_bit(r, i) <==> (0 <= i < 64 && rank_of(i) == k) by {
                if 0 <= i < 64 {
                    lemma_rank_mask_bits(k, i as u64);
                }
            }
        }
        r
    }
}

} // verus!
