use vstd::prelude::*;

verus! {

/// A set of squares, one bit per square; square `8 * rank + file` is bit `8 * rank + file`.
pub type BitBoard = u64;

/// A square index, `0..64`.
pub type Square = usize;

/// The empty set of squares.
pub const BB_ZERO: BitBoard = 0;

/// The eight sliding directions.
#[derive(Clone, Copy, Debug, PartialEq, Eq, Structural)]
pub enum Direction {
    North,
    South,
    East,
    West,
    NorthEast,
    NorthWest,
    SouthEast,
    SouthWest,
}

impl Direction {
    /// File step of one move in this direction.
    pub open spec fn file_step(self) -> int {
        match self {
            Direction::East | Direction::NorthEast | Direction::SouthEast => 1,
            Direction::West | Direction::NorthWest | Direction::SouthWest => -1,
            _ => 0,
        }
    }

    /// Rank step of one move in this direction.
    pub open spec fn rank_step(self) -> int {
        match self {
            Direction::North | Direction::NorthEast | Direction::NorthWest => 1,
            Direction::South | Direction::SouthEast | Direction::SouthWest => -1,
            _ => 0,
        }
    }

    pub fn df(self) -> (r: i8)
        ensures
            r == self.file_step(),
    {
        match self {
            Direction::East | Direction::NorthEast | Direction::SouthEast => 1,
            Direction::West | Direction::NorthWest | Direction::SouthWest => -1,
            _ => 0,
        }
    }

    pub fn dr(self) -> (r: i8)
        ensures
            r == self.rank_step(),
    {
        match self {
            Direction::North | Direction::NorthEast | Direction::NorthWest => 1,
            Direction::South | Direction::SouthEast | Direction::SouthWest => -1,
            _ => 0,
        }
    }
}

/// The four diagonal directions, along which a bishop slides.
pub const BISHOP_DIRS: [Direction; 4] = [
    Direction::NorthEast,
    Direction::NorthWest,
    Direction::SouthEast,
    Direction::SouthWest,
];

/// The four orthogonal directions, along which a rook slides.
pub const ROOK_DIRS: [Direction; 4] = [
    Direction::North,
    Direction::South,
    Direction::East,
    Direction::West,
];

pub open spec fn on_board(f: int, r: int) -> bool {
    0 <= f < 8 && 0 <= r < 8
}

/// The one-square set holding the square at file `f`, rank `r`.
pub open spec fn sq_bit(f: int, r: int) -> u64 {
    1u64 << ((8 * r + f) as u64)
}

pub open spec fn occupied(occ: u64, f: int, r: int) -> bool {
    occ & sq_bit(f, r) != 0
}

/// The squares a slider on (`f`, `r`) reaches in direction `d` within `n` steps: each
/// square in turn up to the board's edge, stopping after the first occupied one, which is
/// included.
pub open spec fn ray(f: int, r: int, d: Direction, occ: u64, n: nat) -> u64
    decreases n,
{
    if n == 0 {
        0
    } else {
        let nf = f + d.file_step();
        let nr = r + d.rank_step();
        if !on_board(nf, nr) {
            0
        } else if occupied(occ, nf, nr) {
            sq_bit(nf, nr)
        } else {
            sq_bit(nf, nr) | ray(nf, nr, d, occ, (n - 1) as nat)
        }
    }
}

/// The full ray from square `sq` in direction `d`; no ray on the board is longer than 7.
pub open spec fn ray_from(sq: int, d: Direction, occ: u64) -> u64 {
    ray(sq % 8, sq / 8, d, occ, 7)
}

/// The attack set of a slider on `sq` that moves along the four directions `dirs`.
pub open spec fn slider_attacks_spec(sq: int, dirs: [Direction; 4], occ: u64) -> u64 {
    ray_from(sq, dirs[0], occ) | ray_from(sq, dirs[1], occ) | ray_from(sq, dirs[2], occ)
        | ray_from(sq, dirs[3], occ)
}

proof fn lemma_or_assoc(a: u64, b: u64, c: u64)
    ensures
        (a | b) | c == a | (b | c),
        a | 0 == a,
        0u64 | a == a,
{
    assert((a | b) | c == a | (b | c)) by (bit_vector);
    assert(a | 0 == a) by (bit_vector);
    assert(0u64 | a == a) by (bit_vector);
}

/// The squares a slider on `sq` reaches in direction `d`, given the occupied squares.
pub fn ray_attacks(sq: Square, d: Direction, occ: BitBoard) -> (res: BitBoard)
    requires
        sq < 64,
    ensures
        res == ray_from(sq as int, d, occ),
{
    let df = d.df();
    let dr = d.dr();
    let mut f: i8 = (sq % 8) as i8;
    let mut r: i8 = (sq / 8) as i8;
    let mut k: u8 = 7;
    let mut acc: u64 = 0;
    let mut done = false;
    proof {
        lemma_or_assoc(ray(f as int, r as int, d, occ, 7), 0, 0);
    }
    while !done && k > 0
        invariant
            on_board(f as int, r as int),
            k <= 7,
            df == d.file_step(),
            dr == d.rank_step(),
            !done ==> acc | ray(f as int, r as int, d, occ, k as nat) == ray_from(sq as int, d, occ),
            done ==> acc == ray_from(sq as int, d, occ),
        decreases k + if done { 0int } else { 1int },
    {
        let nf: i8 = f + df;
        let nr: i8 = r + dr;
        proof {
            lemma_or_assoc(acc, 0, 0);
        }
        if nf < 0 || nf >= 8 || nr < 0 || nr >= 8 {
            done = true;
        } else {
            let b: u64 = 1u64 << ((8 * nr + nf) as u64);
            let ghost next = ray(nf as int, nr as int, d, occ, (k - 1) as nat);
            proof {
                lemma_or_assoc(acc, b, next);
            }
            acc = acc | b;
            if occ & b != 0 {
                done = true;
            } else {
                f = nf;
                r = nr;
            }
            k = k - 1;
        }
    }
    proof {
        if !done {
            lemma_or_assoc(acc, 0, 0);
        }
    }
    acc
}

/// The squares of the empty-board ray from (`f`, `r`) in direction `d` that have a further
/// square beyond them: the squares whose occupancy can cut the ray short.
pub open spec fn inner_ray(f: int, r: int, d: Direction, n: nat) -> u64
    decreases n,
{
    if n == 0 {
        0
    } else {
        let nf = f + d.file_step();
        let nr = r + d.rank_step();
        if !on_board(nf, nr) || !on_board(nf + d.file_step(), nr + d.rank_step()) {
            0
        } else {
            sq_bit(nf, nr) | inner_ray(nf, nr, d, (n - 1) as nat)
        }
    }
}

/// The relevant occupancy mask of a slider on `sq` moving along `dirs`.
pub open spec fn relevant_mask_spec(sq: int, dirs: [Direction; 4]) -> u64 {
    inner_ray(sq % 8, sq / 8, dirs[0], 7) | inner_ray(sq % 8, sq / 8, dirs[1], 7) | inner_ray(
        sq % 8,
        sq / 8,
        dirs[2],
        7,
    ) | inner_ray(sq % 8, sq / 8, dirs[3], 7)
}

fn inner_ray_mask(sq: Square, d: Direction) -> (res: BitBoard)
    requires
        sq < 64,
    ensures
        res == inner_ray(sq as int % 8, sq as int / 8, d, 7),
{
    let df = d.df();
    let dr = d.dr();
    let mut f: i8 = (sq % 8) as i8;
    let mut r: i8 = (sq / 8) as i8;
    let mut k: u8 = 7;
    let mut acc: u64 = 0;
    let mut done = false;
    proof {
        lemma_or_assoc(inner_ray(f as int, r as int, d, 7), 0, 0);
    }
    while !done && k > 0
        invariant
            on_board(f as int, r as int),
            k <= 7,
            df == d.file_step(),
            dr == d.rank_step(),
            !done ==> acc | inner_ray(f as int, r as int, d, k as nat) == inner_ray(
                sq as int % 8,
                sq as int / 8,
                d,
                7,
            ),
            done ==> acc == inner_ray(sq as int % 8, sq as int / 8, d, 7),
        decreases k + if done { 0int } else { 1int },
    {
        let nf: i8 = f + df;
        let nr: i8 = r + dr;
        proof {
            lemma_or_assoc(acc, 0, 0);
        }
        if nf < 0 || nf >= 8 || nr < 0 || nr >= 8 || nf + df < 0 || nf + df >= 8 || nr + dr < 0
            || nr + dr >= 8 {
            done = true;
        } else {
            let b: u64 = 1u64 << ((8 * nr + nf) as u64);
            let ghost next = inner_ray(nf as int, nr as int, d, (k - 1) as nat);
            proof {
                lemma_or_assoc(acc, b, next);
            }
            acc = acc | b;
            f = nf;
            r = nr;
            k = k - 1;
        }
    }
    proof {
        if !done {
            lemma_or_assoc(acc, 0, 0);
        }
    }
    acc
}

/// The relevant occupancy mask of a slider on `sq`: along each direction, every square of
/// the empty-board ray but the last. Only these squares can change its attack set.
pub fn relevant_mask(sq: Square, attack_dirs: &[Direction; 4]) -> (res: BitBoard)
    requires
        sq < 64,
    ensures
        res == relevant_mask_spec(sq as int, *attack_dirs),
{
    let a0 = inner_ray_mask(sq, attack_dirs[0]);
    let a1 = inner_ray_mask(sq, attack_dirs[1]);
    let a2 = inner_ray_mask(sq, attack_dirs[2]);
    let a3 = inner_ray_mask(sq, attack_dirs[3]);
    a0 | a1 | a2 | a3
}

/// Ray casting: the union of the four rays of a slider on `sq`. Each ray includes the
/// first occupied square it meets, since a slider may capture there.
pub fn slider_attacks(sq: Square, attack_dirs: &[Direction; 4], occ: BitBoard) -> (res: BitBoard)
    requires
        sq < 64,
    ensures
        res == slider_attacks_spec(sq as int, *attack_dirs, occ),
{
    let a0 = ray_attacks(sq, attack_dirs[0], occ);
    let a1 = ray_attacks(sq, attack_dirs[1], occ);
    let a2 = ray_attacks(sq, attack_dirs[2], occ);
    let a3 = ray_attacks(sq, attack_dirs[3], occ);
    a0 | a1 | a2 | a3
}

} // verus!
