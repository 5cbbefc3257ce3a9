use std::sync::atomic::{AtomicBool, AtomicU64};
use std::sync::Arc;

use scam::limits::{printable_score, Limits};
use scam::position::Position;
use scam::search::{search, search_root};
use scam::thread::{Node, SharedState, Thread};
use scam::types::{Move, MATE, NO_MOVE};

/// A game given as an explicit tree: node `id` has its moves (move, child or `None` when
/// illegal), whether the side to move is in check, and its static evaluation.
#[derive(Clone)]
struct Tree {
    nodes: Arc<Vec<(Vec<(Move, Option<usize>)>, bool, i32)>>,
    at: usize,
}

impl Position for Tree {
    fn duplicate(&self) -> Self {
        self.clone()
    }

    fn gen_pseudo_legals(&self) -> Vec<Move> {
        self.nodes[self.at].0.iter().map(|m| m.0).collect()
    }

    fn make_move(&mut self, mv: Move) -> bool {
        let found = self.nodes[self.at].0.iter().find(|m| m.0 == mv).and_then(|m| m.1);
        match found {
            Some(child) => {
                self.at = child;
                true
            }
            None => false,
        }
    }

    fn in_check(&self) -> bool {
        self.nodes[self.at].1
    }

    fn move_str(&self, mv: Move) -> String {
        format!("m{}", mv)
    }

    fn eval(&self) -> i32 {
        self.nodes[self.at].2
    }
}

fn tree(nodes: Vec<(Vec<(Move, Option<usize>)>, bool, i32)>) -> Tree {
    Tree { nodes: Arc::new(nodes), at: 0 }
}

fn worker(root: Tree, limits: Limits) -> Thread<Tree> {
    let counts = Arc::new(vec![Node(AtomicU64::new(0))]);
    Thread::new(counts, 0, root, limits, Arc::new(AtomicBool::new(false)))
}

fn run(root: Tree, depth: i32, height: i32) -> (i32, Thread<Tree>) {
    let mut t = worker(root.clone(), Limits::default());
    let score = search(&mut t, root, depth, height);
    (score, t)
}

fn sample() -> Tree {
    // root: move 1 -> node 1 (eval 30 for the opponent), move 2 illegal,
    // move 3 -> node 2 (eval -20 for the opponent), move 4 -> node 3 (eval -20).
    tree(vec![
        (vec![(1, Some(1)), (2, None), (3, Some(2)), (4, Some(3))], false, 5),
        (vec![(5, Some(4))], false, 30),
        (vec![(6, Some(4)), (7, Some(5))], false, -20),
        (vec![], false, -20),
        (vec![], false, 10),
        (vec![], false, -40),
    ])
}

#[test]
fn depth_zero_returns_static_eval() {
    let (score, t) = run(sample(), 0, 0);
    assert_eq!(score, 5);
    assert_eq!(t.get_local_nodes(), 1);
}

#[test]
fn depth_one_takes_best_negated_child_first_on_ties() {
    let (score, t) = run(sample(), 1, 0);
    assert_eq!(score, 20);
    assert_eq!(t.best_move, 3);
    assert_eq!(t.get_local_nodes(), 4);
}

#[test]
fn depth_two_negamax() {
    // node 1: best of -(10) = -10; node 2: max(-10, 40) = 40; node 3: stalemate 0.
    // root: max(10, -40, 0) = 10 by move 1.
    let (score, t) = run(sample(), 2, 0);
    assert_eq!(score, 10);
    assert_eq!(t.best_move, 1);
}

#[test]
fn checkmate_scores_mate_plus_height() {
    let mated = tree(vec![(vec![(1, None), (2, None)], true, 0)]);
    let (score, t) = run(mated.clone(), 3, 0);
    assert_eq!(score, -MATE);
    assert_eq!(t.best_move, NO_MOVE);
    let (score, _) = run(mated, 2, 5);
    assert_eq!(score, -MATE + 5);
}

#[test]
fn stalemate_scores_zero() {
    let stale = tree(vec![(vec![(1, None)], false, 123)]);
    let (score, _) = run(stale, 4, 2);
    assert_eq!(score, 0);
}

#[test]
fn mate_in_one_is_found() {
    let t = tree(vec![
        (vec![(1, Some(1)), (2, Some(2))], false, 0),
        (vec![(3, None)], true, 0),
        (vec![], false, 50),
    ]);
    let (score, w) = run(t, 2, 0);
    assert_eq!(score, MATE - 1);
    assert_eq!(w.best_move, 1);
    assert_eq!(printable_score(score), ("mate", 1));
}

#[test]
fn single_legal_move_depth_one() {
    let t = tree(vec![
        (vec![(7, None), (8, Some(1)), (9, None)], false, 0),
        (vec![(1, Some(2))], false, 17),
        (vec![], false, 99),
    ]);
    let (score, w) = run(t, 1, 0);
    assert_eq!(w.best_move, 8);
    assert_eq!(score, -17);
}

#[test]
fn mirrored_position_scores_the_same() {
    let plain = sample();
    // Same game with every move renamed and nodes listed in reverse order.
    let n = plain.nodes.len();
    let mut nodes = vec![(Vec::new(), false, 0); n];
    for (id, node) in plain.nodes.iter().enumerate() {
        let moves = node.0.iter().map(|&(m, c)| (m + 100, c.map(|c| n - 1 - c))).collect();
        nodes[n - 1 - id] = (moves, node.1, node.2);
    }
    let mirrored = Tree { nodes: Arc::new(nodes), at: n - 1 };
    for depth in 0..3 {
        assert_eq!(run(plain.clone(), depth, 0).0, run(mirrored.clone(), depth, 0).0);
    }
}

#[test]
fn aborted_search_returns_sentinel_and_stays_aborted() {
    let flag = Arc::new(AtomicBool::new(true));
    let counts = Arc::new(vec![Node(AtomicU64::new(0))]);
    let mut t = Thread::new(counts, 0, sample(), Limits::default(), flag);
    t.bump_nodes(2047);
    let score = search(&mut t, sample(), 2, 0);
    assert!(t.abort);
    assert_eq!(score, -32001);
}

#[test]
fn already_aborted_worker_counts_one_node_and_keeps_its_move() {
    let mut t = worker(sample(), Limits::default());
    t.best_move = 3;
    t.abort = true;
    t.bump_nodes(10);
    assert_eq!(search(&mut t, sample(), 0, 0), -32001);
    assert_eq!(t.get_local_nodes(), 11);
    assert_eq!(search(&mut t, sample(), 2, 0), -32001);
    assert_eq!(t.get_local_nodes(), 12);
    assert_eq!(t.best_move, 3);
    assert_eq!(search_root(&mut t, 1), None);
    assert_eq!(t.best_move, 3);
}

#[test]
fn abort_below_the_root_gives_the_sentinel() {
    let flag = Arc::new(AtomicBool::new(true));
    let counts = Arc::new(vec![Node(AtomicU64::new(0))]);
    let mut t = Thread::new(counts, 0, sample(), Limits::default(), flag);
    t.bump_nodes(2046);
    // The root is node 2047; its first child is node 2048, a checkup node.
    assert_eq!(search(&mut t, sample(), 2, 0), -32001);
    assert!(t.abort);
    assert_eq!(t.get_local_nodes(), 2048);
    assert_eq!(t.best_move, NO_MOVE);
}

#[test]
fn node_counts_grow_and_reset_per_dispatch() {
    let mut state = SharedState::default();
    state.resize_counters(2);
    state.begin_search();
    let mut t = state.job(1, sample(), Limits::default());
    assert_eq!(t.get_local_nodes(), 0);
    let mut last = 0;
    for d in 0..3 {
        search(&mut t, sample(), d, 0);
        assert!(t.get_local_nodes() >= last);
        last = t.get_local_nodes();
    }
    assert_eq!(t.get_global_nodes(), last);
    state.begin_search();
    assert_eq!(t.get_global_nodes(), 0);
    let fresh = state.job(1, sample(), Limits::default());
    assert_eq!(fresh.get_local_nodes(), 0);
    assert_eq!(fresh.best_move, NO_MOVE);
}

#[test]
fn node_counter_increments_and_bumps() {
    let mut t = worker(sample(), Limits::default());
    t.inc_nodes();
    t.inc_nodes();
    assert_eq!(t.get_local_nodes(), 2);
    t.bump_nodes(40);
    assert_eq!(t.get_local_nodes(), 42);
    assert_eq!(t.get_global_nodes(), 42);
    t.bump_nodes(u64::MAX);
    assert_eq!(t.get_local_nodes(), u64::MAX);
}

#[test]
fn printable_scores() {
    assert_eq!(printable_score(35), ("cp", 35));
    assert_eq!(printable_score(-250), ("cp", -250));
    assert_eq!(printable_score(MATE - 1), ("mate", 1));
    assert_eq!(printable_score(MATE - 3), ("mate", 2));
    assert_eq!(printable_score(-MATE + 2), ("mate", -1));
    assert_eq!(printable_score(-MATE + 4), ("mate", -2));
    assert_eq!(printable_score(31900), ("mate", 51));
    assert_eq!(printable_score(31899), ("cp", 31899));
    assert_eq!(printable_score(i32::MAX), ("mate", -1073725822));
    assert_eq!(printable_score(i32::MIN + 1), ("mate", 1073725823));
}

fn timed(time: u128, inc: u128, movetime: u128, is_time_limit: bool) -> Limits {
    let mut l = Limits::default();
    l.time = time;
    l.inc = inc;
    l.movetime = movetime;
    l.is_time_limit = is_time_limit;
    l
}

#[test]
fn stop_needs_both_budgets_exceeded() {
    let l = timed(3000, 10, 50, true);
    assert!(!l.should_stop_at(110));
    assert!(l.should_stop_at(111));
    let l = timed(3000, 10, 200, true);
    assert!(!l.should_stop_at(150));
    assert!(l.should_stop_at(201));
}

#[test]
fn movetime_alone_never_stops() {
    let l = timed(0, 0, 100, false);
    assert!(!l.should_stop_at(1_000_000));
    assert!(!l.should_stop());
}

#[test]
fn root_iteration_keeps_last_completed_move() {
    let mut t = worker(sample(), Limits::default());
    assert_eq!(search_root(&mut t, 1), Some(20));
    assert_eq!(t.best_move, 3);
    t.global_abort.store(true, std::sync::atomic::Ordering::Relaxed);
    let before = t.get_local_nodes();
    t.bump_nodes(2047 - before % 2048);
    assert_eq!(search_root(&mut t, 2), None);
    assert!(t.abort);
    assert_eq!(t.best_move, 3);
}

#[test]
fn default_limits() {
    let l = Limits::default();
    assert_eq!((l.time, l.inc, l.movetime, l.moves_to_go), (0, 0, 0, 30));
    assert_eq!((l.depth, l.mate, l.is_time_limit, l.is_infinite), (6, 0, false, false));
    assert!(l.elapsed() < 60_000);
}
