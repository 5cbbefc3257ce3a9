use vstd::prelude::*;
use vstd::arithmetic::power2::{pow2, lemma_pow2_unfold, lemma_pow2_pos, lemma_pow2_strictly_increases};
use crate::bitboard::{
    relevant_mask, relevant_mask_spec, slider_attacks, slider_attacks_spec, BitBoard, Direction,
    BISHOP_DIRS, ROOK_DIRS,
};
use crate::magic::{
    bits_from, index_spec, lemma_carry_rippler_step, lemma_pext_bound, next_subset_of, lemma_pext_injective,
    pext_spec, popcount, subset_of, Magic,
};

verus! {

/// Number of slots in the attack table: over both sliders and all squares, the sum of
/// `2^popcount(mask)`.
pub const ATTACK_TABLE_SIZE: usize = 107648;


/// The directions of entry `k` of a record list: bishops on squares `0..64`, then rooks.
pub open spec fn dirs_at(k: int) -> [Direction; 4] {
    if k < 64 {
        BISHOP_DIRS
    } else {
        ROOK_DIRS
    }
}

/// The slot that entry `k` gives the occupancy `occ`.
pub open spec fn slot(magics: Seq<Magic>, k: int, occ: u64, has_bmi2: bool) -> int {
    index_spec(magics[k], occ, has_bmi2)
}

/// The records index the table without collision: every subset of every mask maps into
/// the table, and two distinct (entry, subset) pairs never share a slot.
pub open spec fn valid_layout(magics: Seq<Magic>, has_bmi2: bool) -> bool {
    &&& forall|k: int| 0 <= k < 128 && !has_bmi2 ==> #[trigger] magics[k].shift < 64
    &&& forall|k: int, occ: u64|
        0 <= k < 128 && subset_of(occ, magics[k].mask) ==> 0 <= #[trigger] slot(
            magics,
            k,
            occ,
            has_bmi2,
        ) < ATTACK_TABLE_SIZE
    &&& forall|k1: int, o1: u64, k2: int, o2: u64|
        0 <= k1 < 128 && 0 <= k2 < 128 && subset_of(o1, magics[k1].mask)
            && subset_of(o2, magics[k2].mask) && #[trigger] slot(
            magics,
            k1,
            o1,
            has_bmi2,
        ) == #[trigger] slot(magics, k2, o2, has_bmi2) ==> k1 == k2 && o1 == o2
}

/// Fills the attack table. For each slider and square it walks every subset of the
/// square's mask with the Carry-Rippler step and stores the ray-cast attack set of that
/// occupancy at the subset's slot. Afterwards each such slot holds exactly that set.
pub fn init_attacks(magics: &Vec<Magic>, has_bmi2: bool) -> (res: Vec<BitBoard>)
    requires
        magics.len() == 128,
        valid_layout(magics@, has_bmi2),
    ensures
        res.len() == ATTACK_TABLE_SIZE,
        forall|k: int, occ: u64|
            0 <= k < 128 && subset_of(occ, magics@[k].mask) ==> res@[#[trigger] slot(
                magics@,
                k,
                occ,
                has_bmi2,
            )] == slider_attacks_spec(k % 64, dirs_at(k), occ),
{
    let mut res: Vec<BitBoard> = Vec::new();
    while res.len() < ATTACK_TABLE_SIZE
        invariant
            res.len() <= ATTACK_TABLE_SIZE,
        decreases ATTACK_TABLE_SIZE - res.len(),
    {
        res.push(0);
    }
    let ghost ms = magics@;
    let mut k: usize = 0;
    while k < 128
        invariant
            k <= 128,
            ms == magics@,
            magics.len() == 128,
            valid_layout(ms, has_bmi2),
            res.len() == ATTACK_TABLE_SIZE,
            forall|k2: int, o2: u64|
                0 <= k2 < k && subset_of(o2, ms[k2].mask) ==> res@[#[trigger] slot(
                    ms,
                    k2,
                    o2,
                    has_bmi2,
                )] == slider_attacks_spec(k2 % 64, dirs_at(k2), o2),
        decreases 128 - k,
    {
        let m: Magic = magics[k];
        let dirs: &[Direction; 4] = if k < 64 {
            &BISHOP_DIRS
        } else {
            &ROOK_DIRS
        };
        let sq: usize = k % 64;
        assert(m == ms[k as int]);
        let mut occ: u64 = 0;
        let mut more = true;
        proof {
            assert(0u64 & m.mask == 0u64) by (bit_vector);
        }
        while more
            invariant
                k < 128,
                sq == k % 64,
                m == ms[k as int],
                *dirs == dirs_at(k as int),
                valid_layout(ms, has_bmi2),
                res.len() == ATTACK_TABLE_SIZE,
                subset_of(occ, m.mask),
                forall|k2: int, o2: u64|
                    0 <= k2 < k && subset_of(o2, ms[k2].mask) ==> res@[#[trigger] slot(
                        ms,
                        k2,
                        o2,
                        has_bmi2,
                    )] == slider_attacks_spec(k2 % 64, dirs_at(k2), o2),
                forall|o2: u64|
                    subset_of(o2, m.mask) && (o2 < occ || !more) ==> res@[#[trigger] slot(
                        ms,
                        k as int,
                        o2,
                        has_bmi2,
                    )] == slider_attacks_spec(k as int % 64, dirs_at(k as int), o2),
            decreases (if more { 1int } else { 0int }) * (u64::MAX - occ + 1),
        {
            let attacks = slider_attacks(sq, dirs, occ);
            assert(slot(ms, k as int, occ, has_bmi2) < ATTACK_TABLE_SIZE);
            let idx = m.build_index(occ, has_bmi2);
            res.set(idx, attacks);
            let next = next_subset_of(occ, m.mask);
            proof {
                assert(0u64 & m.mask == 0u64) by (bit_vector);
                lemma_carry_rippler_step(occ, m.mask, 0);
                assert forall|o2: u64| subset_of(o2, m.mask) && (o2 < next || next == 0) implies res@[#[trigger] slot(
                    ms,
                    k as int,
                    o2,
                    has_bmi2,
                )] == slider_attacks_spec(k as int % 64, dirs_at(k as int), o2) by {
                    lemma_carry_rippler_step(occ, m.mask, o2);
                };
            }
            occ = next;
            if occ == 0 {
                more = false;
            }
        }
        k = k + 1;
    }
    res
}

/// For squares `a` and `b`: over both slider types whose empty-board attacks from `a`
/// reach `b`, the squares attacked both from `a` with `b` as the only blocker and from `b`
/// with `a` as the only blocker; that is, the squares strictly between them on their line.
pub open spec fn between_spec(a: int, b: int) -> u64 {
    let ba = 1u64 << (a as u64);
    let bb = 1u64 << (b as u64);
    let diag: u64 = if slider_attacks_spec(a, BISHOP_DIRS, 0) & bb != 0 {
        slider_attacks_spec(a, BISHOP_DIRS, bb) & slider_attacks_spec(b, BISHOP_DIRS, ba)
    } else {
        0
    };
    let orth: u64 = if slider_attacks_spec(a, ROOK_DIRS, 0) & bb != 0 {
        slider_attacks_spec(a, ROOK_DIRS, bb) & slider_attacks_spec(b, ROOK_DIRS, ba)
    } else {
        0
    };
    diag | orth
}

fn between(a: usize, b: usize) -> (r: BitBoard)
    requires
        a < 64,
        b < 64,
    ensures
        r == between_spec(a as int, b as int),
{
    let ba: u64 = 1u64 << (a as u64);
    let bb: u64 = 1u64 << (b as u64);
    let diag: u64 = if slider_attacks(a, &BISHOP_DIRS, 0) & bb != 0 {
        slider_attacks(a, &BISHOP_DIRS, bb) & slider_attacks(b, &BISHOP_DIRS, ba)
    } else {
        0
    };
    let orth: u64 = if slider_attacks(a, &ROOK_DIRS, 0) & bb != 0 {
        slider_attacks(a, &ROOK_DIRS, bb) & slider_attacks(b, &ROOK_DIRS, ba)
    } else {
        0
    };
    diag | orth
}

/// The 64 by 64 table of squares strictly between two squares.
pub fn init_between_bb() -> (res: Vec<Vec<BitBoard>>)
    ensures
        res.len() == 64,
        forall|a: int| 0 <= a < 64 ==> (#[trigger] res@[a]).len() == 64,
        forall|a: int, b: int| 0 <= a < 64 && 0 <= b < 64 ==> (#[trigger] res@[a]@[b]) == between_spec(a, b),
{
    let mut res: Vec<Vec<BitBoard>> = Vec::new();
    let mut a: usize = 0;
    while a < 64
        invariant
            a <= 64,
            res.len() == a,
            forall|i: int| 0 <= i < a ==> (#[trigger] res@[i]).len() == 64,
            forall|i: int, j: int| 0 <= i < a && 0 <= j < 64 ==> (#[trigger] res@[i]@[j]) == between_spec(i, j),
        decreases 64 - a,
    {
        let mut row: Vec<BitBoard> = Vec::new();
        let mut b: usize = 0;
        while b < 64
            invariant
                a < 64,
                b <= 64,
                row.len() == b,
                forall|j: int| 0 <= j < b ==> (#[trigger] row@[j]) == between_spec(a as int, j),
            decreases 64 - b,
        {
            row.push(between(a, b));
            b = b + 1;
        }
        res.push(row);
        a = a + 1;
    }
    res
}

/// The number of slots a record needs: one per subset of its mask.
pub open spec fn span(m: Magic) -> nat {
    pow2(popcount(m.mask))
}

/// The records are laid out back to back from slot zero, each taking its span, and the
/// last ends within the table.
pub open spec fn contiguous(magics: Seq<Magic>) -> bool {
    &&& magics.len() == 128
    &&& magics[0].offset == 0
    &&& forall|k: int| 0 <= k < 127 ==> #[trigger] magics[k + 1].offset == magics[k].offset + span(magics[k])
    &&& magics[127].offset + span(magics[127]) <= ATTACK_TABLE_SIZE
}

proof fn lemma_contiguous_ordered(magics: Seq<Magic>, i: int, j: int)
    requires
        contiguous(magics),
        0 <= i < j < 128,
    ensures
        magics[i].offset + span(magics[i]) <= magics[j].offset,
    decreases j - i,
{
    assert(magics[(j - 1) + 1].offset == magics[j - 1].offset + span(magics[j - 1]));
    if i < j - 1 {
        lemma_contiguous_ordered(magics, i, j - 1);
    }
}

/// Records laid out back to back, indexed by bit extraction, never collide.
pub proof fn lemma_contiguous_valid(magics: Seq<Magic>)
    requires
        contiguous(magics),
    ensures
        valid_layout(magics, true),
{
    assert forall|k: int, occ: u64|
        0 <= k < 128 && subset_of(occ, magics[k].mask) implies 0 <= #[trigger] slot(
            magics,
            k,
            occ,
            true,
        ) < ATTACK_TABLE_SIZE by {
        lemma_pext_bound(occ, magics[k].mask);
        if k < 127 {
            lemma_contiguous_ordered(magics, k, 127);
        }
    };
    assert forall|k1: int, o1: u64, k2: int, o2: u64|
        0 <= k1 < 128 && 0 <= k2 < 128 && subset_of(o1, magics[k1].mask)
            && subset_of(o2, magics[k2].mask) && #[trigger] slot(magics, k1, o1, true)
            == #[trigger] slot(magics, k2, o2, true) implies k1 == k2 && o1 == o2 by {
        lemma_pext_bound(o1, magics[k1].mask);
        lemma_pext_bound(o2, magics[k2].mask);
        if k1 < k2 {
            lemma_contiguous_ordered(magics, k1, k2);
        } else if k2 < k1 {
            lemma_contiguous_ordered(magics, k2, k1);
        } else {
            lemma_pext_injective(o1, o2, magics[k1].mask);
        }
    };
}

/// The slots that the relevant masks of the first `k` entries need together.
pub open spec fn mask_spans(k: int) -> nat
    decreases k,
{
    if k <= 0 {
        0
    } else {
        mask_spans(k - 1) + pow2(popcount(relevant_mask_spec((k - 1) % 64, dirs_at(k - 1))))
    }
}

proof fn lemma_mask_spans_grow(i: int, j: int)
    requires
        0 <= i <= j,
    ensures
        mask_spans(i) <= mask_spans(j),
    decreases j - i,
{
    if i < j {
        lemma_mask_spans_grow(i, j - 1);
    }
}

/// The number of set bits of `mask`.
pub fn count_bits(mask: u64) -> (r: u32)
    ensures
        r == popcount(mask),
        r <= 64,
{
    let mut i: u64 = 64;
    let mut n: u32 = 0;
    while i > 0
        invariant
            i <= 64,
            n == bits_from(mask, i as nat),
            n <= 64 - i,
        decreases i,
    {
        i = i - 1;
        if (mask >> i) & 1 == 1 {
            n = n + 1;
        }
    }
    n
}

/// The bit-extraction layout: each slider's relevant mask per square, bishops first, with
/// the records laid out back to back from slot zero. The multiplier and shift are unused
/// under bit extraction and are zero. `None` when the masks need more slots than the
/// table has.
pub fn pext_magics() -> (r: Option<Vec<Magic>>)
    ensures
        r is None <==> mask_spans(128) > ATTACK_TABLE_SIZE,
        r is Some ==> contiguous(r->0@),
        r is Some ==> forall|k: int|
            0 <= k < 128 ==> (#[trigger] r->0@[k]).mask == relevant_mask_spec(k % 64, dirs_at(k))
                && r->0@[k].offset == mask_spans(k),
{
    let mut v: Vec<Magic> = Vec::new();
    let mut offset: usize = 0;
    let mut k: usize = 0;
    while k < 128
        invariant
            k <= 128,
            v.len() == k,
            offset == mask_spans(k as int),
            offset <= ATTACK_TABLE_SIZE,
            forall|j: int|
                0 <= j < k ==> (#[trigger] v@[j]).mask == relevant_mask_spec(j % 64, dirs_at(j))
                    && v@[j].offset == mask_spans(j),
        decreases 128 - k,
    {
        let dirs: &[Direction; 4] = if k < 64 {
            &BISHOP_DIRS
        } else {
            &ROOK_DIRS
        };
        let mask = relevant_mask(k % 64, dirs);
        let pc = count_bits(mask);
        proof {
            lemma_mask_spans_grow(k as int + 1, 128);
        }
        if pc > 17 {
            proof {
                lemma_pow2_strictly_increases(17, pc as nat);
                vstd::arithmetic::power2::lemma2_to64();
            }
            return None;
        }
        let mut sp: usize = 1;
        let mut i: u32 = 0;
        proof {
            lemma_pow2_pos(0);
            vstd::arithmetic::power2::lemma2_to64();
        }
        while i < pc
            invariant
                i <= pc <= 17,
                sp == pow2(i as nat),
            decreases pc - i,
        {
            proof {
                vstd::arithmetic::power2::lemma2_to64();
                lemma_pow2_unfold(i as nat + 1);
                if i + 1 < 17 {
                    lemma_pow2_strictly_increases(i as nat + 1, 17);
                }
            }
            sp = sp * 2;
            i = i + 1;
        }
        if sp > ATTACK_TABLE_SIZE - offset {
            return None;
        }
        v.push(Magic { mask, magic: 0, shift: 0, offset });
        offset = offset + sp;
        k = k + 1;
    }
    proof {
        assert forall|j: int| 0 <= j < 127 implies #[trigger] v@[j + 1].offset == v@[j].offset + span(v@[j]) by {
            assert(v@[j + 1].offset == mask_spans(j + 1));
        };
        assert(mask_spans(128) == v@[127].offset + span(v@[127]));
    }
    Some(v)
}

/// The slot of occupancy `occ` of entry `k` in the bit-extraction layout.
pub open spec fn pext_slot(k: int, occ: u64) -> int {
    (mask_spans(k) + pext_spec(occ, relevant_mask_spec(k % 64, dirs_at(k)))) as int
}

/// The attack table under bit extraction, over the relevant masks, or `None` when the
/// masks need more slots than the table has.
pub fn init_pext_attacks() -> (r: Option<Vec<BitBoard>>)
    ensures
        r is None <==> mask_spans(128) > ATTACK_TABLE_SIZE,
        r is Some ==> r->0.len() == ATTACK_TABLE_SIZE,
        r is Some ==> forall|k: int, occ: u64|
            0 <= k < 128 && subset_of(occ, relevant_mask_spec(k % 64, dirs_at(k))) ==> r->0@[#[trigger] pext_slot(k, occ)] == slider_attacks_spec(k % 64, dirs_at(k), occ),
{
    match pext_magics() {
        None => None,
        Some(magics) => {
            proof {
                lemma_contiguous_valid(magics@);
            }
            let t = init_attacks(&magics, true);
            proof {
                assert forall|k: int, occ: u64|
                    0 <= k < 128 && subset_of(occ, relevant_mask_spec(k % 64, dirs_at(k))) implies t@[#[trigger] pext_slot(k, occ)] == slider_attacks_spec(k % 64, dirs_at(k), occ) by {
                    assert(magics@[k].mask == relevant_mask_spec(k % 64, dirs_at(k)));
                    assert(slot(magics@, k, occ, true) == mask_spans(k) + pext_spec(occ, relevant_mask_spec(k % 64, dirs_at(k))));
                };
            }
            Some(t)
        },
    }
}

} // verus!
