use vstd::prelude::*;
use std::time::Instant;
use crate::types::{Score, MATE, MATE_IN_MAX};

verus! {

#[verifier::external_type_specification]
#[verifier::external_body]
pub struct ExInstant(Instant);

/// Relies on `Instant::now`: the current reading of the monotonic clock.
#[verifier::external_body]
fn clock_now() -> (r: Instant) {
    Instant::now()
}

/// Relies on `Instant::elapsed`, read in whole milliseconds through `Duration::as_millis`.
/// Nothing is known of the value: it depends on the clock.
#[verifier::external_body]
fn millis_since(start: &Instant) -> (r: u128) {
    start.elapsed().as_millis()
}

/// The budget of one search command.
pub struct Limits {
    pub start: Instant,
    pub time: u128,
    pub inc: u128,
    pub movetime: u128,
    pub moves_to_go: u128,
    pub depth: i32,
    pub mate: i32,
    pub is_time_limit: bool,
    pub is_infinite: bool,
}

/// Whether a search that has run for `elapsed` milliseconds is over its time budget.
pub open spec fn over_budget(l: Limits, elapsed: u128) -> bool {
    l.is_time_limit
        && elapsed > l.time / l.moves_to_go + l.inc
        && elapsed > l.movetime
}

impl Limits {
    /// The clock budget is usable: a divisor for the remaining time, and a sum that fits.
    pub open spec fn wf(&self) -> bool {
        self.is_time_limit ==> (self.moves_to_go > 0 && self.time / self.moves_to_go + self.inc
            <= u128::MAX)
    }

    /// Milliseconds since the search started.
    pub fn elapsed(&self) -> (r: u128) {
        millis_since(&self.start)
    }

    /// The stop decision for a given elapsed time. Only a time-limited session stops on
    /// time, and only once it is past both the share of the remaining time plus the
    /// increment and the per-move cap.
    pub fn should_stop_at(&self, elapsed: u128) -> (r: bool)
        requires
            self.wf(),
        ensures
            r == over_budget(*self, elapsed),
    {
        if self.is_time_limit {
            return elapsed > self.time / self.moves_to_go + self.inc && elapsed > self.movetime;
        }
        false
    }

    /// Reads the clock and decides whether the search must stop now.
    pub fn should_stop(&self) -> (r: bool)
        requires
            self.wf(),
        ensures
            !self.is_time_limit ==> !r,
            r ==> exists|e: u128| over_budget(*self, e),
    {
        if self.is_time_limit {
            let elapsed = self.elapsed();
            return self.should_stop_at(elapsed);
        }
        false
    }

    /// A copy of these limits, sharing the same start instant.
    pub fn duplicate(&self) -> (r: Limits)
        ensures
            r == *self,
    {
        Limits {
            start: self.start,
            time: self.time,
            inc: self.inc,
            movetime: self.movetime,
            moves_to_go: self.moves_to_go,
            depth: self.depth,
            mate: self.mate,
            is_time_limit: self.is_time_limit,
            is_infinite: self.is_infinite,
        }
    }
}

impl Default for Limits {
    /// Six plies deep, no clock, started now.
    fn default() -> (r: Limits)
        ensures
            r.time == 0 && r.inc == 0 && r.movetime == 0 && r.moves_to_go == 30,
            r.depth == 6 && r.mate == 0 && !r.is_time_limit && !r.is_infinite,
    {
        Limits {
            start: clock_now(),
            time: 0,
            inc: 0,
            movetime: 0,
            moves_to_go: 30,
            depth: 6,
            mate: 0,
            is_time_limit: false,
            is_infinite: false,
        }
    }
}

/// Halves an integer, rounding toward zero as machine division does.
pub open spec fn half_toward_zero(x: int) -> int {
    if x >= 0 { x / 2 } else { -((-x) / 2) }
}

/// How a score reads in a progress line: a mate distance where it encodes a mate.
pub open spec fn printable_score_spec(score: int) -> (bool, int) {
    if score >= MATE_IN_MAX {
        (true, half_toward_zero(MATE - score) + 1)
    } else if score <= -MATE_IN_MAX {
        (true, half_toward_zero(-(MATE + score)))
    } else {
        (false, score)
    }
}

/// Formats a score as `("mate", n)` when it encodes a forced mate, else `("cp", score)`.
pub fn printable_score(score: Score) -> (r: (&'static str, Score))
    requires
        score != i32::MIN,
    ensures
        r.0@ == (if printable_score_spec(score as int).0 { "mate"@ } else { "cp"@ }),
        r.1 as int == printable_score_spec(score as int).1,
{
    if score >= MATE_IN_MAX || score <= -MATE_IN_MAX {
        proof { reveal_strlit("mate"); }
        if score > 0 {
            ("mate", (MATE - score) / 2 + 1)
        } else {
            ("mate", -(MATE + score) / 2)
        }
    } else {
        proof { reveal_strlit("cp"); }
        ("cp", score)
    }
}

} // verus!
