use vstd::prelude::*;

verus! {

/// A search score in centipawns, from the point of view of the side to move.
pub type Score = i32;

/// Deepest iterative-deepening iteration the engine will run.
pub const MAX_DEPTH: i32 = 100;

/// Score of being checkmated at the root; a mate found `h` plies deep scores `MATE - h`.
pub const MATE: Score = 32000;

/// Larger than any score a search can return.
pub const INFINITE: Score = 32001;

/// Scores at least this large in absolute value encode a forced mate.
pub const MATE_IN_MAX: Score = MATE - MAX_DEPTH;

/// Local node count between two looks at the clock and the shared stop flag.
pub const CHECKUP_NODES: u64 = 2048;

/// A move, in the encoding of the board representation that generated it.
pub type Move = u16;

/// The move recorded when no legal move has been found.
pub const NO_MOVE: Move = 0;

} // verus!
