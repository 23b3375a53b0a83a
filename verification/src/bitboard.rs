//! Single-word bitboard primitives: bit membership, mutation, and
//! least-significant-bit scanning, plus the bit-level lemmas the rest of the
//! crate leans on.
//!
//! A bitboard is a `u64` in which bit `i` stands for square `i` (rank-major,
//! a1 = 0, h8 = 63).

use vstd::prelude::*;
use vstd::std_specs::bits::u64_trailing_zeros;

verus! {

/// Number of set bits in a word; the spec-level population count.
pub open spec fn popcount(x: u64) -> nat
    decreases x,
{
    if x == 0 {
        0
    } else {
        (x % 2) as nat + popcount(x / 2)
    }
}

/// Bit `i` of `x`, as a boolean. The basic membership test of a bitboard.
pub open spec fn bit(x: u64, i: u64) -> bool {
    (x >> i) & 1 == 1
}

/// Bitboard manipulation on a single 64-bit word.
pub trait Bitmanip: Sized + Copy {
    /// The word being manipulated.
    spec fn word(self) -> u64;

    /// Sets bit `square_index`.
    fn set_square(&mut self, square_index: u64)
        requires
            square_index < 64,
        ensures
            final(self).word() == old(self).word() | (1u64 << square_index),
    ;

    /// Flips bit `square_index`.
    fn toggle_square(&mut self, square_index: u64)
        requires
            square_index < 64,
        ensures
            final(self).word() == old(self).word() ^ (1u64 << square_index),
    ;

    /// Flips both bits at once.
    fn toggle_squares(&mut self, square_index_1: u64, square_index_2: u64)
        requires
            square_index_1 < 64,
            square_index_2 < 64,
        ensures
            final(self).word() == old(self).word() ^ ((1u64 << square_index_1) | (1u64
                << square_index_2)),
    ;

    /// Index of the least-significant set bit; 64 when the word is zero.
    fn bitscan(self) -> (r: u64)
        ensures
            r == u64_trailing_zeros(self.word()),
            self.word() != 0 ==> r < 64,
    ;

    /// Returns the index of the least-significant set bit and clears it.
    fn bitscan_reset(&mut self) -> (r: u64)
        requires
            old(self).word() != 0,
        ensures
            r == u64_trailing_zeros(old(self).word()),
            r < 64,
            final(self).word() == clear_ls1b(old(self).word()),
            final(self).word() < old(self).word(),
    ;

    /// Whether bit `square_index` is set.
    fn contains_index(self, square_index: u64) -> (r: bool)
        requires
            square_index < 64,
        ensures
            r == bit(self.word(), square_index),
    ;

    /// Whether the word meets `bit_mask` anywhere.
    fn contains_bit(self, bit_mask: u64) -> (r: bool)
        ensures
            r == (self.word() & bit_mask != 0),
    ;

    /// The least-significant set bit alone; 0 when the word is zero.
    fn isolate_ls1b(self) -> (r: u64)
        ensures
            r == ls1b(self.word()),
    ;
}

/// The word with its least-significant set bit cleared.
pub open spec fn clear_ls1b(x: u64) -> u64
    recommends
        x != 0,
{
    x & ((x - 1) as u64)
}

/// The least-significant set bit of `x`, isolated; 0 when `x` is 0.
pub open spec fn ls1b(x: u64) -> u64 {
    if x == 0 {
        0
    } else {
        1u64 << u64_trailing_zeros(x)
    }
}

impl Bitmanip for u64 {
    open spec fn word(self) -> u64 {
        self
    }

    #[inline]
    fn set_square(&mut self, square_index: u64) {
        *self |= 1u64 << square_index;
    }

    #[inline]
    fn toggle_square(&mut self, square_index: u64) {
        *self ^= 1u64 << square_index;
    }

    #[inline]
    fn toggle_squares(&mut self, square_index_1: u64, square_index_2: u64) {
        *self ^= (1u64 << square_index_1) | (1u64 << square_index_2);
    }

    #[inline]
    fn bitscan(self) -> (r: u64) {
        proof {
            vstd::std_specs::bits::axiom_u64_trailing_zeros(self);
        }
        self.trailing_zeros() as u64
    }

    #[inline]
    fn bitscan_reset(&mut self) -> (r: u64) {
        proof {
            vstd::std_specs::bits::axiom_u64_trailing_zeros(*self);
            lemma_clear_ls1b_decreases(*self);
        }
        let id = self.trailing_zeros();
        *self &= *self - 1;
        id as u64
    }

    #[inline]
    fn contains_index(self, square_index: u64) -> (r: bool) {
        proof {
            lemma_bit01(self, square_index);
        }
        ((self >> square_index) & 1) != 0
    }

    #[inline]
    fn contains_bit(self, bit_mask: u64) -> (r: bool) {
        (self & bit_mask) != 0
    }

    #[inline]
    fn isolate_ls1b(self) -> (r: u64) {
        proof {
            vstd::std_specs::bits::axiom_u64_trailing_zeros(self);
        }
        if self == 0 {
            0
        } else {
            1u64 << self.trailing_zeros()
        }
    }
}

/// Clearing the least-significant set bit of a non-zero word strictly
/// decreases it; the termination measure of every bit-scanning loop.
pub proof fn lemma_clear_ls1b_decreases(x: u64)
    by (bit_vector)
    requires
        x != 0,
    ensures
        x & ((x - 1) as u64) < x,
{
}

/// How the basic bitwise operators act on a single bit position.
pub proof fn lemma_bit_ops(t: u64)
    by (bit_vector)
    requires
        t < 64,
    ensures
        forall|x: u64, y: u64| #[trigger] bit(x | y, t) == (bit(x, t) || bit(y, t)),
        forall|x: u64, y: u64| #[trigger] bit(x & y, t) == (bit(x, t) && bit(y, t)),
        forall|x: u64, y: u64| #[trigger] bit(x ^ y, t) == (bit(x, t) != bit(y, t)),
        forall|x: u64| #[trigger] bit(!x, t) == !bit(x, t),
{
}

/// Bit `t` of the single-bit word `1 << i` is set exactly when `t == i`.
pub proof fn lemma_bit_single(t: u64, i: u64)
    by (bit_vector)
    requires
        t < 64,
        i < 64,
    ensures
        bit(1u64 << i, t) == (t == i),
{
}

/// Toggling a word by the same mask twice restores it, also when another
/// toggle pair is interleaved.
pub proof fn lemma_xor_cancel()
    by (bit_vector)
    ensures
        forall|x: u64, m: u64| #[trigger] ((x ^ m) ^ m) == x,
        forall|x: u64, a: u64, b: u64| #[trigger] ((((x ^ a) ^ b) ^ a) ^ b) == x,
{
}

/// Toggling two squares flips exactly those two bit positions (or one, when
/// the squares coincide).
pub proof fn lemma_bit_toggle_pair(x: u64, a: u64, b: u64, s: u64)
    requires
        a < 64,
        b < 64,
        s < 64,
    ensures
        bit(x ^ ((1u64 << a) | (1u64 << b)), s) == (if s == a || s == b {
            !bit(x, s)
        } else {
            bit(x, s)
        }),
{
    lemma_bit_ops(s);
    lemma_bit_single(s, a);
    lemma_bit_single(s, b);
}

/// Toggling one square flips exactly that bit position.
pub proof fn lemma_bit_toggle_one(x: u64, a: u64, s: u64)
    requires
        a < 64,
        s < 64,
    ensures
        bit(x ^ (1u64 << a), s) == (if s == a {
            !bit(x, s)
        } else {
            bit(x, s)
        }),
{
    lemma_bit_ops(s);
    lemma_bit_single(s, a);
}

/// Masking twice with the same word masks once.
pub proof fn lemma_and_idem()
    by (bit_vector)
    ensures
        forall|x: u64, m: u64| #[trigger] ((x & m) & m) == x & m,
{
}

/// A single bit position reads as 0 or 1.
pub proof fn lemma_bit01(x: u64, i: u64)
    by (bit_vector)
    ensures
        (x >> i) & 1 == 0 || (x >> i) & 1 == 1,
{
}

/// A set bit of a left shift lies at or above the shift amount; a set bit of
/// a right shift lies below `64 - k`. Either way it comes from the
/// correspondingly displaced bit of the unshifted word.
pub proof fn lemma_shift_bit_range(x: u64, k: u64, t: u64)
    by (bit_vector)
    requires
        k < 64,
        t < 64,
    ensures
        bit(x << k, t) ==> t >= k,
        bit(x >> k, t) ==> t < 64 - k,
        bit(x << k, t) ==> bit(x, ((t - k) as u64)),
        bit(x >> k, t) ==> bit(x, ((t + k) as u64)),
{
}

/// The value of a word with its bytes reversed.
pub open spec fn spec_swap_bytes(x: u64) -> u64 {
    ((x & 0xff) << 56) | (((x >> 8) & 0xff) << 48) | (((x >> 16) & 0xff) << 40) | (((x >> 24)
        & 0xff) << 32) | (((x >> 32) & 0xff) << 24) | (((x >> 40) & 0xff) << 16) | (((x >> 48)
        & 0xff) << 8) | ((x >> 56) & 0xff)
}

/// Reverses the byte order of a word; the board-flip step of the hyperbola
/// quintessence attack computation.
#[inline]
pub fn swap_bytes(x: u64) -> (r: u64)
    ensures
        r == spec_swap_bytes(x),
{
    ((x & 0xff) << 56) | (((x >> 8) & 0xff) << 48) | (((x >> 16) & 0xff) << 40) | (((x >> 24)
        & 0xff) << 32) | (((x >> 32) & 0xff) << 24) | (((x >> 40) & 0xff) << 16) | (((x >> 48)
        & 0xff) << 8) | ((x >> 56) & 0xff)
}

/// A right shift by one halves the word; a parity test is a remainder test.
pub proof fn lemma_shr1(x: u64)
    by (bit_vector)
    ensures
        x >> 1 == x / 2,
        x & 1 == x % 2,
{
}

/// Counts the set bits of `x`.
pub fn count_set_bits(x: u64) -> (r: u64)
    ensures
        r == popcount(x),
{
    proof {
        lemma_popcount_le_64(x);
    }
    let mut rest = x;
    let mut count: u64 = 0;
    while rest != 0
        invariant
            count + popcount(rest) == popcount(x),
            popcount(x) <= 64,
        decreases rest,
    {
        proof {
            lemma_shr1(rest);
        }
        count = count + (rest & 1);
        rest = rest >> 1;
    }
    count
}

/// A word below `2^k` has at most `k` set bits.
proof fn lemma_popcount_bound(x: u64, k: nat)
    requires
        x < vstd::arithmetic::power2::pow2(k),
    ensures
        popcount(x) <= k,
    decreases k,
{
    vstd::arithmetic::power2::lemma2_to64();
    if x != 0 {
        assert(k > 0) by {
            if k == 0 {
                assert(vstd::arithmetic::power2::pow2(0) == 1) by {
                    vstd::arithmetic::power2::lemma2_to64();
                }
            }
        }
        let p = vstd::arithmetic::power2::pow2((k - 1) as nat);
        assert(vstd::arithmetic::power2::pow2(k) == 2 * p) by {
            vstd::arithmetic::power2::lemma_pow2_unfold(k);
        }
        assert(x / 2 < p);
        lemma_popcount_bound(x / 2, (k - 1) as nat);
    }
}

/// The population count never exceeds the word width.
pub proof fn lemma_popcount_le_64(x: u64)
    ensures
        popcount(x) <= 64,
{
    vstd::arithmetic::power2::lemma2_to64_rest();
    lemma_popcount_bound(x, 64);
}

} // verus!
