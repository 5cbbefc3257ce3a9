use scam::bitboard::{relevant_mask, slider_attacks, BISHOP_DIRS, ROOK_DIRS};
use scam::magic::{next_subset_of, pext, Magic};
use scam::tables::{count_bits, init_between_bb, init_pext_attacks, pext_magics, ATTACK_TABLE_SIZE};

fn bb(squares: &[usize]) -> u64 {
    squares.iter().fold(0u64, |acc, &s| acc | (1u64 << s))
}

#[test]
fn rook_attacks_on_empty_board_from_a1() {
    assert_eq!(slider_attacks(0, &ROOK_DIRS, 0), 0x0101_0101_0101_01FE);
}

#[test]
fn rook_attacks_stop_at_and_include_blocker() {
    let occ = bb(&[3, 24]);
    assert_eq!(slider_attacks(0, &ROOK_DIRS, occ), bb(&[1, 2, 3, 8, 16, 24]));
}

#[test]
fn bishop_attacks_from_d4_with_blockers() {
    let occ = bb(&[45, 9]);
    assert_eq!(slider_attacks(27, &BISHOP_DIRS, occ), bb(&[36, 45, 18, 9, 34, 41, 48, 20, 13, 6]));
}

#[test]
fn relevant_masks_drop_edge_squares() {
    assert_eq!(relevant_mask(0, &ROOK_DIRS), 0x0001_0101_0101_017E);
    assert_eq!(relevant_mask(27, &BISHOP_DIRS), bb(&[36, 45, 54, 18, 9, 34, 41, 20, 13]));
    assert_eq!(count_bits(relevant_mask(0, &ROOK_DIRS)), 12);
}

#[test]
fn pext_packs_masked_bits() {
    assert_eq!(pext(0b1010, 0b1110), 0b101);
    assert_eq!(pext(u64::MAX, 0xF0), 0xF);
    assert_eq!(pext(0, u64::MAX), 0);
}

#[test]
fn build_index_both_strategies() {
    let m = Magic { mask: 0xF0, magic: 3, shift: 60, offset: 100 };
    assert_eq!(m.build_index(0b1010_0000, true), 100 + 0b1010);
    let hashed = ((0b1010_0000u64 & 0xF0).wrapping_mul(3) >> 60) as usize;
    assert_eq!(m.build_index(0b1010_1111, false), 100 + hashed);
    let big = Magic { mask: u64::MAX, magic: 0x9000_0000_0000_0001, shift: 58, offset: 7 };
    assert_eq!(big.build_index(3, false), 7 + (3u64.wrapping_mul(0x9000_0000_0000_0001) >> 58) as usize);
}

#[test]
fn carry_rippler_visits_every_subset_once() {
    let mask: u64 = 0b1011_0100;
    let mut seen = Vec::new();
    let mut occ = 0u64;
    loop {
        seen.push(occ);
        occ = next_subset_of(occ, mask);
        if occ == 0 {
            break;
        }
    }
    assert_eq!(seen.len(), 16);
    for w in seen.windows(2) {
        assert!(w[0] < w[1]);
    }
    assert!(seen.iter().all(|&s| s & mask == s));
    assert_eq!(*seen.last().unwrap(), mask);
}

#[test]
fn attack_table_has_fixed_size_and_matches_ray_casting() {
    let table = init_pext_attacks().expect("masks fit the table");
    assert_eq!(table.len(), 107648);
    assert_eq!(ATTACK_TABLE_SIZE, 107648);
    let magics = pext_magics().unwrap();
    for k in 0..128usize {
        let dirs = if k < 64 { &BISHOP_DIRS } else { &ROOK_DIRS };
        let m = magics[k];
        let mut occ = 0u64;
        let mut visited = 0usize;
        loop {
            assert_eq!(table[m.build_index(occ, true)], slider_attacks(k % 64, dirs, occ));
            visited += 1;
            occ = next_subset_of(occ, m.mask);
            if occ == 0 {
                break;
            }
        }
        assert_eq!(visited, 1usize << count_bits(m.mask));
    }
    let last = magics[127];
    assert_eq!(last.offset + (1usize << count_bits(last.mask)), 107648);
}

#[test]
fn pext_layout_is_back_to_back() {
    let magics = pext_magics().unwrap();
    assert_eq!(magics.len(), 128);
    assert_eq!(magics[0].offset, 0);
    for k in 0..127 {
        assert_eq!(magics[k + 1].offset, magics[k].offset + (1usize << count_bits(magics[k].mask)));
    }
    assert_eq!(magics[64].offset, 5248);
}

#[test]
fn between_table_laws() {
    let between = init_between_bb();
    for a in 0..64 {
        assert_eq!(between[a][a], 0);
        for b in 0..64 {
            assert_eq!(between[a][b], between[b][a]);
        }
    }
    assert_eq!(between[0][63], bb(&[9, 18, 27, 36, 45, 54]));
    assert_eq!(between[0][7], bb(&[1, 2, 3, 4, 5, 6]));
    assert_eq!(between[0][56], bb(&[8, 16, 24, 32, 40, 48]));
    assert_eq!(between[0][1], 0);
    assert_eq!(between[0][17], 0);
    assert_eq!(between[3][28], 0);
}

#[test]
fn between_table_holds_interior_of_aligned_pairs() {
    let between = init_between_bb();
    for a in 0..64i32 {
        for b in 0..64i32 {
            let (fa, ra, fb, rb) = (a % 8, a / 8, b % 8, b / 8);
            let (df, dr) = (fb - fa, rb - ra);
            let aligned = a != b && (df == 0 || dr == 0 || df.abs() == dr.abs());
            let mut expected = 0u64;
            if aligned {
                let n = df.abs().max(dr.abs());
                for j in 1..n {
                    let s = (ra + j * dr.signum()) * 8 + fa + j * df.signum();
                    expected |= 1u64 << s;
                }
            }
            assert_eq!(between[a as usize][b as usize], expected);
        }
    }
}
