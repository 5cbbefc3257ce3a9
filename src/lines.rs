use vstd::prelude::*;
use crate::bitboard::{
    on_board, ray, ray_from, slider_attacks_spec, sq_bit, Direction, BISHOP_DIRS, ROOK_DIRS,
};
use crate::tables::between_spec;

verus! {

/// Whether bit `t` of `x` is set.
pub open spec fn bit_set(x: u64, t: int) -> bool {
    (x >> (t as u64)) & 1 == 1
}

/// Square `t` is `j` steps from (`f`, `r`) in direction `d`, on the board.
pub open spec fn on_ray(f: int, r: int, d: Direction, j: int, t: int) -> bool {
    on_board(f + j * d.file_step(), r + j * d.rank_step()) && t == 8 * (r + j * d.rank_step()) + f + j
        * d.file_step()
}

proof fn lemma_bits(x: u64, y: u64, t: u64)
    requires
        x < 64,
        t < 64,
    ensures
        ((((1u64 << x) | y) >> t) & 1 == 1) == (t == x || (y >> t) & 1 == 1),
        (0u64 >> t) & 1 != 1,
        0u64 & (1u64 << x) == 0,
{
    assert(x < 64 && t < 64 ==> ((((1u64 << x) | y) >> t) & 1 == 1) == (t == x || (y >> t) & 1 == 1)) by (bit_vector);
    assert((0u64 >> t) & 1 != 1) by (bit_vector);
    assert(0u64 & (1u64 << x) == 0) by (bit_vector);
}

proof fn lemma_or4(a: u64, b: u64, c: u64, d: u64, t: u64)
    requires
        t < 64,
    ensures
        (((a | b | c | d) >> t) & 1 == 1) == ((a >> t) & 1 == 1 || (b >> t) & 1 == 1 || (c >> t) & 1 == 1
            || (d >> t) & 1 == 1),
{
    assert(t < 64 ==> (((a | b | c | d) >> t) & 1 == 1) == ((a >> t) & 1 == 1 || (b >> t) & 1 == 1
        || (c >> t) & 1 == 1 || (d >> t) & 1 == 1)) by (bit_vector);
}

/// On the empty board, a ray holds exactly the squares some number of steps along it.
proof fn lemma_empty_ray(f: int, r: int, d: Direction, n: nat, t: int)
    requires
        on_board(f, r),
        0 <= t < 64,
    ensures
        bit_set(ray(f, r, d, 0, n), t) <==> exists|j: int| 1 <= j <= n && #[trigger] on_ray(f, r, d, j, t),
    decreases n,
{
    let df = d.file_step();
    let dr = d.rank_step();
    if n == 0 {
        lemma_bits(0, 0, t as u64);
    } else {
        let nf = f + df;
        let nr = r + dr;
        if !on_board(nf, nr) {
            lemma_bits(0, 0, t as u64);
            assert forall|j: int| 1 <= j <= n implies !#[trigger] on_ray(f, r, d, j, t) by {
                assert(j * df == (if df == 1 { j } else if df == -1 { -j } else { 0 })) by (nonlinear_arith)
                    requires
                        df == 1 || df == -1 || df == 0,
                ;
                assert(j * dr == (if dr == 1 { j } else if dr == -1 { -j } else { 0 })) by (nonlinear_arith)
                    requires
                        dr == 1 || dr == -1 || dr == 0,
                ;
            };
        } else {
            let x = 8 * nr + nf;
            lemma_bits(x as u64, 0, t as u64);
            lemma_empty_ray(nf, nr, d, (n - 1) as nat, t);
            lemma_bits(x as u64, ray(nf, nr, d, 0, (n - 1) as nat), t as u64);
            assert(sq_bit(nf, nr) == 1u64 << (x as u64));
            if bit_set(ray(f, r, d, 0, n), t) {
                if t == x {
                    assert(on_ray(f, r, d, 1, t));
                } else {
                    let j = choose|j: int| 1 <= j <= n - 1 && #[trigger] on_ray(nf, nr, d, j, t);
                    assert((j + 1) * df == j * df + df) by (nonlinear_arith);
                    assert((j + 1) * dr == j * dr + dr) by (nonlinear_arith);
                    assert(on_ray(f, r, d, j + 1, t));
                }
            }
            if exists|j: int| 1 <= j <= n && #[trigger] on_ray(f, r, d, j, t) {
                let j = choose|j: int| 1 <= j <= n && #[trigger] on_ray(f, r, d, j, t);
                if j > 1 {
                    assert((j - 1) * df == j * df - df) by (nonlinear_arith);
                    assert((j - 1) * dr == j * dr - dr) by (nonlinear_arith);
                    assert(on_ray(nf, nr, d, j - 1, t));
                }
            }
        }
    }
}

/// The direction pointing the other way.
pub open spec fn opposite(d: Direction) -> Direction {
    match d {
        Direction::North => Direction::South,
        Direction::South => Direction::North,
        Direction::East => Direction::West,
        Direction::West => Direction::East,
        Direction::NorthEast => Direction::SouthWest,
        Direction::SouthWest => Direction::NorthEast,
        Direction::NorthWest => Direction::SouthEast,
        Direction::SouthEast => Direction::NorthWest,
    }
}

/// Whether squares `a` and `b` share a rank, a file or a diagonal.
pub open spec fn aligned(a: int, b: int) -> bool {
    let (fa, ra, fb, rb) = (a % 8, a / 8, b % 8, b / 8);
    fa == fb || ra == rb || fa - fb == ra - rb || fa - fb == rb - ra
}

/// On the empty board, a slider on `a` attacks `b` exactly when `b` lies some steps from
/// `a` along one of its directions.
proof fn lemma_attacks_empty(a: int, dirs: [Direction; 4], b: int)
    requires
        0 <= a < 64,
        0 <= b < 64,
    ensures
        bit_set(slider_attacks_spec(a, dirs, 0), b) <==> exists|k: int, j: int|
            0 <= k < 4 && 1 <= j <= 7 && #[trigger] on_ray(a % 8, a / 8, dirs[k], j, b),
{
    let (f, r) = (a % 8, a / 8);
    lemma_or4(
        ray_from(a, dirs[0], 0),
        ray_from(a, dirs[1], 0),
        ray_from(a, dirs[2], 0),
        ray_from(a, dirs[3], 0),
        b as u64,
    );
    lemma_empty_ray(f, r, dirs[0], 7, b);
    lemma_empty_ray(f, r, dirs[1], 7, b);
    lemma_empty_ray(f, r, dirs[2], 7, b);
    lemma_empty_ray(f, r, dirs[3], 7, b);
    if exists|k: int, j: int| 0 <= k < 4 && 1 <= j <= 7 && #[trigger] on_ray(f, r, dirs[k], j, b) {
        let (k, j) = choose|k: int, j: int| 0 <= k < 4 && 1 <= j <= 7 && #[trigger] on_ray(f, r, dirs[k], j, b);
        assert(on_ray(f, r, dirs[k], j, b));
        if k == 0 {
            assert(bit_set(ray(f, r, dirs[0], 0, 7), b));
        } else if k == 1 {
            assert(bit_set(ray(f, r, dirs[1], 0, 7), b));
        } else if k == 2 {
            assert(bit_set(ray(f, r, dirs[2], 0, 7), b));
        } else {
            assert(bit_set(ray(f, r, dirs[3], 0, 7), b));
        }
    }
}

proof fn lemma_step_product(j: int, df: int, dr: int)
    requires
        j >= 1,
        -1 <= df <= 1,
        -1 <= dr <= 1,
    ensures
        j * df == (if df == 1 { j } else if df == -1 { -j } else { 0 }),
        j * dr == (if dr == 1 { j } else if dr == -1 { -j } else { 0 }),
{
    assert(j * df == (if df == 1 { j } else if df == -1 { -j } else { 0 })) by (nonlinear_arith)
        requires
            -1 <= df <= 1,
    ;
    assert(j * dr == (if dr == 1 { j } else if dr == -1 { -j } else { 0 })) by (nonlinear_arith)
        requires
            -1 <= dr <= 1,
    ;
}

/// Walking back: if `b` is `j` steps from `a` along `d`, then `a` is `j` steps from `b`
/// the other way.
proof fn lemma_on_ray_back(a: int, b: int, d: Direction, j: int)
    requires
        0 <= a < 64,
        1 <= j,
        on_ray(a % 8, a / 8, d, j, b),
    ensures
        0 <= b < 64,
        on_ray(b % 8, b / 8, opposite(d), j, a),
{
    lemma_step_product(j, d.file_step(), d.rank_step());
    lemma_step_product(j, opposite(d).file_step(), opposite(d).rank_step());
}

/// A slider on `a` reaches `b` on the empty board exactly when one on `b` reaches `a`,
/// provided its directions come in opposite pairs.
proof fn lemma_reach_symmetric(a: int, b: int, dirs: [Direction; 4])
    requires
        0 <= a < 64,
        0 <= b < 64,
        forall|k: int| 0 <= k < 4 ==> exists|k2: int| 0 <= k2 < 4 && dirs[k2] == opposite(#[trigger] dirs[k]),
    ensures
        bit_set(slider_attacks_spec(a, dirs, 0), b) == bit_set(slider_attacks_spec(b, dirs, 0), a),
{
    lemma_attacks_empty(a, dirs, b);
    lemma_attacks_empty(b, dirs, a);
    if bit_set(slider_attacks_spec(a, dirs, 0), b) {
        let (k, j) = choose|k: int, j: int| 0 <= k < 4 && 1 <= j <= 7 && #[trigger] on_ray(a % 8, a / 8, dirs[k], j, b);
        lemma_on_ray_back(a, b, dirs[k], j);
        let k2 = choose|k2: int| 0 <= k2 < 4 && dirs[k2] == opposite(#[trigger] dirs[k]);
        assert(on_ray(b % 8, b / 8, dirs[k2], j, a));
    }
    if bit_set(slider_attacks_spec(b, dirs, 0), a) {
        let (k, j) = choose|k: int, j: int| 0 <= k < 4 && 1 <= j <= 7 && #[trigger] on_ray(b % 8, b / 8, dirs[k], j, a);
        lemma_on_ray_back(b, a, dirs[k], j);
        let k2 = choose|k2: int| 0 <= k2 < 4 && dirs[k2] == opposite(#[trigger] dirs[k]);
        assert(on_ray(a % 8, a / 8, dirs[k2], j, b));
    }
}

proof fn lemma_dirs_paired()
    ensures
        forall|k: int| 0 <= k < 4 ==> exists|k2: int| 0 <= k2 < 4 && BISHOP_DIRS[k2] == opposite(#[trigger] BISHOP_DIRS[k]),
        forall|k: int| 0 <= k < 4 ==> exists|k2: int| 0 <= k2 < 4 && ROOK_DIRS[k2] == opposite(#[trigger] ROOK_DIRS[k]),
{
    assert(BISHOP_DIRS[3] == opposite(BISHOP_DIRS[0]));
    assert(BISHOP_DIRS[2] == opposite(BISHOP_DIRS[1]));
    assert(BISHOP_DIRS[1] == opposite(BISHOP_DIRS[2]));
    assert(BISHOP_DIRS[0] == opposite(BISHOP_DIRS[3]));
    assert(ROOK_DIRS[1] == opposite(ROOK_DIRS[0]));
    assert(ROOK_DIRS[0] == opposite(ROOK_DIRS[1]));
    assert(ROOK_DIRS[3] == opposite(ROOK_DIRS[2]));
    assert(ROOK_DIRS[2] == opposite(ROOK_DIRS[3]));
}

proof fn lemma_mask_test(x: u64, b: u64)
    requires
        b < 64,
    ensures
        (x & (1u64 << b) != 0) == ((x >> b) & 1 == 1),
{
    assert(b < 64 ==> (x & (1u64 << b) != 0) == ((x >> b) & 1 == 1)) by (bit_vector);
}

/// The squares between `a` and `b` are the squares between `b` and `a`.
pub proof fn lemma_between_symmetric(a: int, b: int)
    requires
        0 <= a < 64,
        0 <= b < 64,
    ensures
        between_spec(a, b) == between_spec(b, a),
{
    lemma_dirs_paired();
    lemma_reach_symmetric(a, b, BISHOP_DIRS);
    lemma_reach_symmetric(a, b, ROOK_DIRS);
    lemma_mask_test(slider_attacks_spec(a, BISHOP_DIRS, 0), b as u64);
    lemma_mask_test(slider_attacks_spec(b, BISHOP_DIRS, 0), a as u64);
    lemma_mask_test(slider_attacks_spec(a, ROOK_DIRS, 0), b as u64);
    lemma_mask_test(slider_attacks_spec(b, ROOK_DIRS, 0), a as u64);
    let ba = 1u64 << (a as u64);
    let bb = 1u64 << (b as u64);
    let (x1, y1) = (slider_attacks_spec(a, BISHOP_DIRS, bb), slider_attacks_spec(b, BISHOP_DIRS, ba));
    let (x2, y2) = (slider_attacks_spec(a, ROOK_DIRS, bb), slider_attacks_spec(b, ROOK_DIRS, ba));
    assert(x1 & y1 == y1 & x1) by (bit_vector);
    assert(x2 & y2 == y2 & x2) by (bit_vector);
}

/// A slider on `a` does not attack its own square on the empty board.
proof fn lemma_not_self(a: int, dirs: [Direction; 4])
    requires
        0 <= a < 64,
    ensures
        !bit_set(slider_attacks_spec(a, dirs, 0), a),
{
    lemma_attacks_empty(a, dirs, a);
    assert forall|k: int, j: int| 0 <= k < 4 && 1 <= j <= 7 implies !#[trigger] on_ray(a % 8, a / 8, dirs[k], j, a) by {
        lemma_step_product(j, dirs[k].file_step(), dirs[k].rank_step());
    };
}

/// No square lies between a square and itself.
pub proof fn lemma_between_self_empty(a: int)
    requires
        0 <= a < 64,
    ensures
        between_spec(a, a) == 0,
{
    lemma_not_self(a, BISHOP_DIRS);
    lemma_not_self(a, ROOK_DIRS);
    lemma_mask_test(slider_attacks_spec(a, BISHOP_DIRS, 0), a as u64);
    lemma_mask_test(slider_attacks_spec(a, ROOK_DIRS, 0), a as u64);
    assert(0u64 | 0u64 == 0u64) by (bit_vector);
}

proof fn lemma_unaligned_unreached(a: int, b: int, dirs: [Direction; 4])
    requires
        0 <= a < 64,
        0 <= b < 64,
        !aligned(a, b),
    ensures
        !bit_set(slider_attacks_spec(a, dirs, 0), b),
{
    lemma_attacks_empty(a, dirs, b);
    assert forall|k: int, j: int| 0 <= k < 4 && 1 <= j <= 7 implies !#[trigger] on_ray(a % 8, a / 8, dirs[k], j, b) by {
        lemma_step_product(j, dirs[k].file_step(), dirs[k].rank_step());
    };
}

/// Squares that share no rank, file or diagonal have nothing between them.
pub proof fn lemma_between_unaligned_empty(a: int, b: int)
    requires
        0 <= a < 64,
        0 <= b < 64,
        !aligned(a, b),
    ensures
        between_spec(a, b) == 0,
{
    lemma_unaligned_unreached(a, b, BISHOP_DIRS);
    lemma_unaligned_unreached(a, b, ROOK_DIRS);
    lemma_mask_test(slider_attacks_spec(a, BISHOP_DIRS, 0), b as u64);
    lemma_mask_test(slider_attacks_spec(a, ROOK_DIRS, 0), b as u64);
    assert(0u64 | 0u64 == 0u64) by (bit_vector);
}

} // verus!
