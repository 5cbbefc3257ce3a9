use vstd::prelude::*;
use crate::types::{Move, Score};

verus! {

/// The board that the search walks: move generation, legality, check detection and
/// static evaluation, supplied by the board representation. Each method is tied to a
/// spec function, which is what the search's contracts speak of. The contracts hold only
/// for an implementation that defines these spec functions to describe its own moves,
/// legality, check and evaluation; the default bodies, a position with no moves, are
/// there so that the trait can be implemented at all, and an implementation that keeps
/// them does not meet the method contracts.
pub trait Position: Sized {
    /// The pseudo-legal moves of this position, in generation order.
    open spec fn pseudo_legals(&self) -> Seq<Move> {
        Seq::empty()
    }

    /// The position after `mv`, or `None` when `mv` leaves the mover in check.
    open spec fn play(&self, mv: Move) -> Option<Self> {
        None
    }

    /// Whether the side to move is in check.
    open spec fn checked(&self) -> bool {
        false
    }

    /// The static evaluation, from the side to move's point of view.
    open spec fn static_eval(&self) -> int {
        0
    }

    fn duplicate(&self) -> (r: Self)
        ensures
            r == *self,
    ;

    fn gen_pseudo_legals(&self) -> (r: Vec<Move>)
        ensures
            r@ == self.pseudo_legals(),
    ;

    /// Applies `mv`; `false` when it is illegal, and the position is then to be dropped.
    fn make_move(&mut self, mv: Move) -> (r: bool)
        ensures
            r == old(self).play(mv) is Some,
            r ==> old(self).play(mv) == Some(*final(self)),
    ;

    fn in_check(&self) -> (r: bool)
        ensures
            r == self.checked(),
    ;

    /// `mv` in the notation of the text protocol.
    fn move_str(&self, mv: Move) -> String;

    fn eval(&self) -> (r: Score)
        ensures
            r as int == self.static_eval(),
    ;
}

} // verus!
