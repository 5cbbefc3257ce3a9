use vstd::prelude::*;
use vstd::arithmetic::power2::{pow2, lemma_pow2_unfold, lemma_pow2_pos};
use crate::bitboard::BitBoard;

verus! {

/// Whether bit `i` of `x` is set.
pub open spec fn bit(x: u64, i: nat) -> bool {
    i < 64 && (x >> (i as u64)) & 1 == 1
}

/// The number of set bits of `mask` at positions `i` and above.
pub open spec fn bits_from(mask: u64, i: nat) -> nat
    decreases 64 - i,
{
    if i >= 64 {
        0
    } else {
        (if bit(mask, i) { 1nat } else { 0nat }) + bits_from(mask, i + 1)
    }
}

/// The number of set bits of `mask`.
pub open spec fn popcount(mask: u64) -> nat {
    bits_from(mask, 0)
}

/// The bits of `x` at the set positions of `mask` from position `i` up, packed into the
/// low end in order.
pub open spec fn pext_from(x: u64, mask: u64, i: nat) -> nat
    decreases 64 - i,
{
    if i >= 64 {
        0
    } else if bit(mask, i) {
        (if bit(x, i) { 1nat } else { 0nat }) + 2 * pext_from(x, mask, i + 1)
    } else {
        pext_from(x, mask, i + 1)
    }
}

/// Parallel bit extraction: the bits of `x` selected by `mask`, packed densely from bit 0.
pub open spec fn pext_spec(x: u64, mask: u64) -> nat {
    pext_from(x, mask, 0)
}

proof fn lemma_pext_from_bound(x: u64, mask: u64, i: nat)
    ensures
        pext_from(x, mask, i) < pow2(bits_from(mask, i)),
    decreases 64 - i,
{
    if i < 64 {
        lemma_pext_from_bound(x, mask, i + 1);
        if bit(mask, i) {
            lemma_pow2_unfold(bits_from(mask, i));
        }
    } else {
        lemma_pow2_pos(0);
    }
}

proof fn lemma_bits_from_bound(mask: u64, i: nat)
    ensures
        bits_from(mask, i) <= 64 - i || i >= 64,
    decreases 64 - i,
{
    if i < 64 {
        lemma_bits_from_bound(mask, i + 1);
    }
}

/// The extracted index fits the dense range of the mask: below `2^popcount(mask)`.
pub proof fn lemma_pext_bound(x: u64, mask: u64)
    ensures
        pext_spec(x, mask) < pow2(popcount(mask)),
        popcount(mask) <= 64,
{
    lemma_pext_from_bound(x, mask, 0);
    lemma_bits_from_bound(mask, 0);
}

/// Parallel bit extraction of `x` under `mask`.
pub fn pext(x: u64, mask: u64) -> (r: u64)
    ensures
        r == pext_spec(x, mask),
{
    let mut acc: u64 = 0;
    let mut i: u64 = 64;
    proof {
        lemma_pow2_pos(0);
    }
    while i > 0
        invariant
            i <= 64,
            acc == pext_from(x, mask, i as nat),
        decreases i,
    {
        i = i - 1;
        proof {
            lemma_pext_from_bound(x, mask, i as nat + 1);
            lemma_bits_from_bound(mask, i as nat + 1);
            assert(bits_from(mask, 64) == 0);
            assert(bits_from(mask, i as nat + 1) <= 63);
            if bits_from(mask, i as nat + 1) < 63 {
                vstd::arithmetic::power2::lemma_pow2_strictly_increases(
                    bits_from(mask, i as nat + 1),
                    63,
                );
            }
            vstd::arithmetic::power2::lemma2_to64();
            vstd::arithmetic::power2::lemma2_to64_rest();
            assert(acc < 0x8000_0000_0000_0000);
        }
        if (mask >> i) & 1 == 1 {
            let b: u64 = (x >> i) & 1;
            assert(b <= 1) by (bit_vector)
                requires
                    b == (x >> i) & 1,
            ;
            acc = b + 2 * acc;
        }
    }
    acc
}

proof fn lemma_pext_from_injective(x: u64, y: u64, mask: u64, i: nat)
    requires
        i <= 64,
        x & mask == x,
        y & mask == y,
        pext_from(x, mask, i) == pext_from(y, mask, i),
    ensures
        x >> (i as u64) == y >> (i as u64),
    decreases 64 - i,
{
    let iu = i as u64;
    if i == 64 {
        assert(x >> 64u64 == 0u64 && y >> 64u64 == 0u64) by (bit_vector);
    } else {
        if bit(mask, i) {
            assert(pext_from(x, mask, i) == (if bit(x, i) { 1nat } else { 0nat }) + 2 * pext_from(x, mask, i + 1));
            assert(pext_from(y, mask, i) == (if bit(y, i) { 1nat } else { 0nat }) + 2 * pext_from(y, mask, i + 1));
            assert(bit(x, i) == bit(y, i));
        } else {
            assert(x & mask == x && (mask >> iu) & 1 != 1 ==> (x >> iu) & 1 == 0) by (bit_vector);
            assert(y & mask == y && (mask >> iu) & 1 != 1 ==> (y >> iu) & 1 == 0) by (bit_vector);
        }
        lemma_pext_from_injective(x, y, mask, i + 1);
        assert(iu < 64 && x >> ((iu + 1) as u64) == y >> ((iu + 1) as u64) && (x >> iu) & 1 == (y >> iu) & 1
            ==> x >> iu == y >> iu) by (bit_vector);
        assert(((x >> iu) & 1 == 1) == bit(x, i));
        assert(((y >> iu) & 1 == 1) == bit(y, i));
        assert(((x >> iu) & 1 == 1 || (x >> iu) & 1 == 0) && ((y >> iu) & 1 == 1 || (y >> iu) & 1 == 0)) by (bit_vector);
    }
}

/// Bit extraction under `mask` tells the subsets of `mask` apart.
pub proof fn lemma_pext_injective(x: u64, y: u64, mask: u64)
    requires
        subset_of(x, mask),
        subset_of(y, mask),
        pext_spec(x, mask) == pext_spec(y, mask),
    ensures
        x == y,
{
    lemma_pext_from_injective(x, y, mask, 0);
    assert(x >> 0u64 == x && y >> 0u64 == y) by (bit_vector);
}

/// Whether `s` is a subset of `mask`.
pub open spec fn subset_of(s: u64, mask: u64) -> bool {
    s & mask == s
}

/// One Carry-Rippler step: the next subset of `mask` after `occ`, in numeric order,
/// wrapping to the empty set after the last.
pub open spec fn next_subset(occ: u64, mask: u64) -> u64 {
    occ.wrapping_sub(mask) & mask
}

/// A Carry-Rippler step from a subset of `mask` gives a subset of `mask`: the smallest one
/// above `occ` when there is one, and the empty set exactly when `occ` was the largest.
/// Stepping from the empty set therefore visits every subset of the mask once, in
/// increasing order, and returns to the empty set once, after the mask itself.
pub proof fn lemma_carry_rippler_step(occ: u64, mask: u64, s: u64)
    requires
        subset_of(occ, mask),
        subset_of(s, mask),
    ensures
        subset_of(next_subset(occ, mask), mask),
        next_subset(occ, mask) != 0 ==> occ < next_subset(occ, mask),
        next_subset(occ, mask) != 0 && occ < s ==> next_subset(occ, mask) <= s,
        next_subset(occ, mask) == 0 ==> s <= occ,
        next_subset(occ, mask) == 0 ==> occ == mask,
{
    assert(occ.wrapping_sub(mask) == (occ - mask) as u64) by (bit_vector);
    assert(((occ - mask) as u64) & mask & mask == ((occ - mask) as u64) & mask) by (bit_vector);
    assert(occ & mask == occ && ((occ - mask) as u64) & mask != 0 ==> occ < ((occ - mask) as u64) & mask) by (bit_vector);
    assert(occ & mask == occ && s & mask == s && ((occ - mask) as u64) & mask != 0 && occ < s
        ==> ((occ - mask) as u64) & mask <= s) by (bit_vector);
    assert(occ & mask == occ && ((occ - mask) as u64) & mask == 0 ==> occ == mask) by (bit_vector);
    assert(s & mask == s ==> s <= mask) by (bit_vector);
}

/// The Carry-Rippler step: the next subset of `mask` after `occ`.
pub fn next_subset_of(occ: BitBoard, mask: BitBoard) -> (r: BitBoard)
    ensures
        r == next_subset(occ, mask),
{
    occ.wrapping_sub(mask) & mask
}

/// Per-square record of the attack table: the relevant occupancy mask, the multiplier and
/// shift of the multiplicative hash, and where the square's slots begin.
#[derive(Clone, Copy, Debug, PartialEq, Eq, Structural)]
pub struct Magic {
    pub mask: BitBoard,
    pub magic: u64,
    pub shift: u8,
    pub offset: usize,
}

/// The slot an occupancy maps to: the offset plus either the occupancy bits under the
/// mask packed densely, or the masked occupancy hashed by a wrapping multiply and a shift.
pub open spec fn index_spec(m: Magic, occ: u64, has_bmi2: bool) -> int {
    m.offset + if has_bmi2 {
        pext_spec(occ, m.mask) as int
    } else {
        ((occ & m.mask).wrapping_mul(m.magic) >> m.shift) as int
    }
}

impl Magic {
    /// The table slot for `occ`.
    pub fn build_index(self, occ: BitBoard, has_bmi2: bool) -> (r: usize)
        requires
            !has_bmi2 ==> self.shift < 64,
            index_spec(self, occ, has_bmi2) <= usize::MAX,
        ensures
            r == index_spec(self, occ, has_bmi2),
    {
        if has_bmi2 {
            self.offset + pext(occ, self.mask) as usize
        } else {
            self.offset + ((occ & self.mask).wrapping_mul(self.magic) >> self.shift) as usize
        }
    }
}

} // verus!
