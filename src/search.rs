use vstd::prelude::*;
use std::sync::atomic::Ordering;
use crate::position::Position;
use crate::thread::Thread;
use crate::types::{Move, Score, CHECKUP_NODES, INFINITE, MATE, MATE_IN_MAX, NO_MOVE};

verus! {

/// Full-width negamax value of `p` searched `depth` plies deep, `height` plies below the
/// root: the static evaluation at depth zero; otherwise the best negated child value over
/// the legal moves, or a mate score (shorter mates score lower) or a draw when there is no
/// legal move.
pub open spec fn negamax<P: Position>(p: P, depth: nat, height: int) -> int
    decreases depth, p.pseudo_legals().len() + 1,
{
    if depth == 0 {
        p.static_eval()
    } else {
        let s = scan(p, depth, height, p.pseudo_legals().len() as int);
        if !s.1 {
            if p.checked() {
                height - MATE
            } else {
                0
            }
        } else {
            s.0
        }
    }
}

/// The first `i` pseudo-legal moves of `p` folded in order: the best negated child value
/// (starting below every score), whether a legal move was seen, and the first move that
/// reached the best value.
pub open spec fn scan<P: Position>(p: P, depth: nat, height: int, i: int) -> (int, bool, Move)
    decreases depth, i,
    when depth > 0 && 0 <= i <= p.pseudo_legals().len()
{
    if i <= 0 {
        (-INFINITE as int, false, NO_MOVE)
    } else {
        let prev = scan(p, depth, height, i - 1);
        let mv = p.pseudo_legals()[i - 1];
        match p.play(mv) {
            None => prev,
            Some(c) => {
                let s = -negamax(c, (depth - 1) as nat, height + 1);
                if s > prev.0 {
                    (s, true, mv)
                } else {
                    (prev.0, true, prev.2)
                }
            },
        }
    }
}

/// The move that a full-width search of `p` at `depth` chooses at the root.
pub open spec fn best_root_move<P: Position>(p: P, depth: nat) -> Move {
    if depth == 0 {
        NO_MOVE
    } else {
        scan(p, depth, 0, p.pseudo_legals().len() as int).2
    }
}

/// Static evaluations of this position type stay out of the range that encodes mates.
pub open spec fn evals_bounded<P: Position>() -> bool {
    forall|q: P| -MATE_IN_MAX < #[trigger] q.static_eval() < MATE_IN_MAX
}

/// What a search call keeps of the worker: who it is, its budget and its root.
pub open spec fn same_job<P>(a: Thread<P>, b: Thread<P>) -> bool {
    a.id == b.id && a.limits == b.limits && a.root == b.root
}

/// `a + b`, held at the largest node count.
pub open spec fn sat_add(a: int, b: int) -> int {
    if a + b <= u64::MAX {
        a + b
    } else {
        u64::MAX as int
    }
}

/// The nodes a full-width search of `p` at `depth` visits: the node itself and, above
/// depth zero, the nodes under each legal move.
pub open spec fn visits<P: Position>(p: P, depth: nat) -> nat
    decreases depth, p.pseudo_legals().len() + 1,
{
    if depth == 0 {
        1
    } else {
        1 + visits_scan(p, depth, p.pseudo_legals().len() as int)
    }
}

/// The nodes under the first `i` pseudo-legal moves of `p`.
pub open spec fn visits_scan<P: Position>(p: P, depth: nat, i: int) -> nat
    decreases depth, i,
    when depth > 0 && 0 <= i <= p.pseudo_legals().len()
{
    if i <= 0 {
        0
    } else {
        visits_scan(p, depth, i - 1) + match p.play(p.pseudo_legals()[i - 1]) {
            None => 0,
            Some(c) => visits(c, (depth - 1) as nat),
        }
    }
}

/// Node number `n` is one at which a worker looks at the clock and the stop flag.
pub open spec fn is_checkup(n: int) -> bool {
    n % (CHECKUP_NODES as int) == 0
}

/// A worker that was not aborted became aborted only at a checkup node counted in between.
pub open spec fn aborted_at_checkup<P>(before: Thread<P>, after: Thread<P>) -> bool {
    after.abort ==> before.abort || exists|n: int|
        before.nodes < n <= after.nodes && #[trigger] is_checkup(n)
}

/// Full-width negamax search of `pos`, `depth` plies deep, `height` plies below the root.
///
/// Counts a node on entry. Every `CHECKUP_NODES` local nodes it asks the clock and the
/// shared stop flag, and marks the worker aborted if either says stop. An aborted worker
/// returns at once with `-INFINITE`, and a search that sees its worker aborted below it
/// returns `-INFINITE` at once too, so no partial result climbs the tree. A search that
/// ends without abort has counted every node it visited, returns the exact negamax value
/// and, at the root, records the first best move.
pub fn search<P: Position>(thread: &mut Thread<P>, pos: P, depth: i32, height: i32) -> (r: Score)
    requires
        0 <= depth,
        0 <= height,
        height + depth <= MATE,
        evals_bounded::<P>(),
        old(thread).limits.wf(),
    ensures
        -INFINITE <= r <= INFINITE,
        same_job(*old(thread), *final(thread)),
        final(thread).nodes >= sat_add(old(thread).nodes as int, 1),
        old(thread).abort ==> final(thread).abort,
        aborted_at_checkup(*old(thread), *final(thread)),
        final(thread).abort ==> r == -INFINITE,
        old(thread).abort ==> final(thread).nodes == sat_add(old(thread).nodes as int, 1)
            && final(thread).best_move == old(thread).best_move,
        !final(thread).abort ==> r == negamax(pos, depth as nat, height as int)
            && final(thread).nodes == sat_add(old(thread).nodes as int, visits(pos, depth as nat) as int),
        !final(thread).abort && height == 0 && depth > 0 ==> final(thread).best_move
            == best_root_move(pos, depth as nat),
        height != 0 || final(thread).abort || depth == 0 ==> final(thread).best_move
            == old(thread).best_move,
    decreases depth,
{
    thread.inc_nodes();
    if thread.nodes % CHECKUP_NODES == 0 && (thread.limits.should_stop()
        || thread.global_abort.load(Ordering::Relaxed)) {
        thread.abort = true;
        assert(is_checkup(thread.nodes as int));
    }
    if thread.abort {
        return -INFINITE;
    }
    if depth == 0 {
        return pos.eval();
    }
    let ghost start = *thread;
    let moves = pos.gen_pseudo_legals();
    let mut best_score: Score = -INFINITE;
    let mut best_move: Move = NO_MOVE;
    let mut any_legal = false;
    let mut i: usize = 0;
    while i < moves.len()
        invariant
            0 <= i <= moves.len(),
            moves@ == pos.pseudo_legals(),
            0 < depth,
            0 <= height,
            height + depth <= MATE,
            evals_bounded::<P>(),
            !start.abort,
            !thread.abort,
            !old(thread).abort,
            start.nodes == sat_add(old(thread).nodes as int, 1),
            same_job(start, *thread),
            same_job(*old(thread), start),
            thread.limits.wf(),
            thread.best_move == old(thread).best_move,
            -INFINITE <= best_score <= INFINITE,
            (best_score as int, any_legal, best_move) == scan(pos, depth as nat, height as int, i as int),
            thread.nodes == sat_add(old(thread).nodes as int, (1 + visits_scan(pos, depth as nat, i as int)) as int),
        decreases moves.len() - i,
    {
        let mv = moves[i];
        let mut new_pos = pos.duplicate();
        let legal = new_pos.make_move(mv);
        if legal {
            any_legal = true;
            let ghost before = *thread;
            let child = search(thread, new_pos, depth - 1, height + 1);
            if thread.abort {
                proof {
                    let n = choose|n: int| before.nodes < n <= thread.nodes && #[trigger] is_checkup(n);
                    assert(old(thread).nodes < n <= thread.nodes && is_checkup(n));
                }
                return -INFINITE;
            }
            let score = -child;
            if score > best_score {
                best_score = score;
                best_move = mv;
            }
        }
        i = i + 1;
    }
    if !any_legal {
        best_score = if pos.in_check() {
            height - MATE
        } else {
            0
        };
    }
    if height == 0 {
        thread.best_move = best_move;
    }
    best_score
}

/// One iteration of iterative deepening: searches the worker's root `depth` plies deep.
/// A completed iteration gives its score and leaves its best move as the worker's
/// choice. An aborted one gives `None` and leaves the move of the last completed
/// iteration in place, since a partial iteration has not seen every sibling.
pub fn search_root<P: Position>(thread: &mut Thread<P>, depth: i32) -> (r: Option<Score>)
    requires
        0 <= depth <= MATE,
        evals_bounded::<P>(),
        old(thread).limits.wf(),
    ensures
        same_job(*old(thread), *final(thread)),
        final(thread).nodes >= old(thread).nodes,
        aborted_at_checkup(*old(thread), *final(thread)),
        old(thread).abort ==> r is None,
        r is Some ==> final(thread).nodes == sat_add(
            old(thread).nodes as int,
            visits(old(thread).root, depth as nat) as int,
        ),
        r is Some <==> !final(thread).abort,
        r is Some ==> r->0 == negamax(old(thread).root, depth as nat, 0),
        r is Some && depth > 0 ==> final(thread).best_move == best_root_move(
            old(thread).root,
            depth as nat,
        ),
        r is None || depth == 0 ==> final(thread).best_move == old(thread).best_move,
{
    let previous = thread.best_move;
    let pos = thread.root.duplicate();
    let score = search(thread, pos, depth, 0);
    if thread.abort {
        thread.best_move = previous;
        None
    } else {
        if depth == 0 {
            thread.best_move = previous;
        }
        Some(score)
    }
}

/// Negamax values lie between the mate scores.
pub proof fn lemma_negamax_bounds<P: Position>(p: P, depth: nat, height: int)
    requires
        0 <= height,
        height + depth <= MATE,
        evals_bounded::<P>(),
    ensures
        -MATE <= negamax(p, depth, height) <= MATE,
    decreases depth, p.pseudo_legals().len() + 1,
{
    if depth > 0 {
        lemma_scan_bounds(p, depth, height, p.pseudo_legals().len() as int);
    }
}

proof fn lemma_scan_bounds<P: Position>(p: P, depth: nat, height: int, i: int)
    requires
        depth > 0,
        0 <= i <= p.pseudo_legals().len(),
        0 <= height,
        height + depth <= MATE,
        evals_bounded::<P>(),
    ensures
        scan(p, depth, height, i).1 ==> -MATE <= scan(p, depth, height, i).0 <= MATE,
        !scan(p, depth, height, i).1 ==> scan(p, depth, height, i).0 == -INFINITE,
    decreases depth, i,
{
    if i > 0 {
        lemma_scan_bounds(p, depth, height, i - 1);
        match p.play(p.pseudo_legals()[i - 1]) {
            None => {},
            Some(c) => {
                lemma_negamax_bounds(c, (depth - 1) as nat, height + 1);
            },
        }
    }
}

/// With no legal move, a search scores a checkmate as `-MATE + height` and a
/// stalemate as zero.
pub proof fn lemma_no_legal_move<P: Position>(p: P, depth: nat, height: int)
    requires
        depth > 0,
        forall|i: int| 0 <= i < p.pseudo_legals().len() ==> p.play(#[trigger] p.pseudo_legals()[i]) is None,
    ensures
        negamax(p, depth, height) == if p.checked() { height - MATE } else { 0 },
        best_root_move(p, depth) == NO_MOVE,
{
    lemma_scan_no_legal(p, depth, height, p.pseudo_legals().len() as int);
    lemma_scan_no_legal(p, depth, 0, p.pseudo_legals().len() as int);
}

proof fn lemma_scan_no_legal<P: Position>(p: P, depth: nat, height: int, i: int)
    requires
        depth > 0,
        0 <= i <= p.pseudo_legals().len(),
        forall|k: int| 0 <= k < p.pseudo_legals().len() ==> p.play(#[trigger] p.pseudo_legals()[k]) is None,
    ensures
        scan(p, depth, height, i) == (-INFINITE as int, false, NO_MOVE),
    decreases i,
{
    if i > 0 {
        lemma_scan_no_legal(p, depth, height, i - 1);
        assert(p.play(p.pseudo_legals()[i - 1]) is None);
    }
}

/// A one-ply search of a position with exactly one legal move, the one at index `j`,
/// chooses that move and scores it as the negated static evaluation of the position it
/// leads to.
pub proof fn lemma_single_legal_move<P: Position>(p: P, j: int)
    requires
        evals_bounded::<P>(),
        0 <= j < p.pseudo_legals().len(),
        p.play(p.pseudo_legals()[j]) is Some,
        forall|i: int| 0 <= i < p.pseudo_legals().len() && i != j ==> p.play(#[trigger] p.pseudo_legals()[i]) is None,
    ensures
        best_root_move(p, 1) == p.pseudo_legals()[j],
        negamax(p, 1, 0) == -p.play(p.pseudo_legals()[j])->Some_0.static_eval(),
{
    lemma_scan_single(p, j, p.pseudo_legals().len() as int);
}

proof fn lemma_scan_single<P: Position>(p: P, j: int, i: int)
    requires
        evals_bounded::<P>(),
        0 <= j < p.pseudo_legals().len(),
        0 <= i <= p.pseudo_legals().len(),
        p.play(p.pseudo_legals()[j]) is Some,
        forall|k: int| 0 <= k < p.pseudo_legals().len() && k != j ==> p.play(#[trigger] p.pseudo_legals()[k]) is None,
    ensures
        i <= j ==> scan(p, 1, 0, i) == (-INFINITE as int, false, NO_MOVE),
        i > j ==> scan(p, 1, 0, i) == (
            -p.play(p.pseudo_legals()[j])->Some_0.static_eval(),
            true,
            p.pseudo_legals()[j],
        ),
    decreases i,
{
    if i > 0 {
        lemma_scan_single(p, j, i - 1);
        if i - 1 == j {
            let c = p.play(p.pseudo_legals()[j])->Some_0;
            assert(-MATE_IN_MAX < c.static_eval() < MATE_IN_MAX);
            assert(negamax(c, 0, 1) == c.static_eval());
        } else {
            assert(p.play(p.pseudo_legals()[i - 1]) is None);
        }
    }
}

/// A search cannot tell a position from its mirror image. `m` maps a position to its
/// mirror (sides swapped, ranks flipped) and `mm` a move to its mirror; generation,
/// legality and check detection commute with them, and the evaluation, read from the side
/// to move, is symmetric. Then both are searched to the same score. (Scores here belong to
/// the side to move; read from a fixed colour, the mirror's score is the negation.)
pub proof fn lemma_mirror_same_score<P: Position>(
    m: spec_fn(P) -> P,
    mm: spec_fn(Move) -> Move,
    p: P,
    depth: nat,
    height: int,
)
    requires
        forall|q: P| #[trigger] m(q).pseudo_legals() == q.pseudo_legals().map_values(mm),
        forall|q: P, mv: Move| #[trigger] q.play(mv) is Some ==> m(q).play(mm(mv)) == Some(m(q.play(mv)->Some_0)),
        forall|q: P, mv: Move| #[trigger] q.play(mv) is None ==> m(q).play(mm(mv)) is None,
        forall|q: P| #[trigger] m(q).checked() == q.checked(),
        forall|q: P| #[trigger] m(q).static_eval() == q.static_eval(),
    ensures
        negamax(m(p), depth, height) == negamax(p, depth, height),
    decreases depth, p.pseudo_legals().len() + 1,
{
    if depth > 0 {
        lemma_mirror_scan(m, mm, p, depth, height, p.pseudo_legals().len() as int);
    }
}

proof fn lemma_mirror_scan<P: Position>(
    m: spec_fn(P) -> P,
    mm: spec_fn(Move) -> Move,
    p: P,
    depth: nat,
    height: int,
    i: int,
)
    requires
        depth > 0,
        0 <= i <= p.pseudo_legals().len(),
        forall|q: P| #[trigger] m(q).pseudo_legals() == q.pseudo_legals().map_values(mm),
        forall|q: P, mv: Move| #[trigger] q.play(mv) is Some ==> m(q).play(mm(mv)) == Some(m(q.play(mv)->Some_0)),
        forall|q: P, mv: Move| #[trigger] q.play(mv) is None ==> m(q).play(mm(mv)) is None,
        forall|q: P| #[trigger] m(q).checked() == q.checked(),
        forall|q: P| #[trigger] m(q).static_eval() == q.static_eval(),
    ensures
        scan(m(p), depth, height, i).0 == scan(p, depth, height, i).0,
        scan(m(p), depth, height, i).1 == scan(p, depth, height, i).1,
    decreases depth, i,
{
    assert(m(p).pseudo_legals() == p.pseudo_legals().map_values(mm));
    if i > 0 {
        lemma_mirror_scan(m, mm, p, depth, height, i - 1);
        let mv = p.pseudo_legals()[i - 1];
        assert(m(p).pseudo_legals()[i - 1] == mm(mv));
        if p.play(mv) is Some {
            lemma_mirror_same_score(m, mm, p.play(mv)->Some_0, (depth - 1) as nat, height + 1);
        }
    }
}

} // verus!
