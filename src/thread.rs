use vstd::prelude::*;
use std::sync::Arc;
use std::sync::atomic::{AtomicBool, AtomicU64, Ordering};
use crate::limits::Limits;
use crate::types::{Move, NO_MOVE};

verus! {

/// One worker's published node count. Only its owner stores into it; anyone may read it.
pub struct Node(pub AtomicU64);

/// What the coordinator shares with the workers: one published node count per worker and
/// the stop flag of the current search.
pub struct SharedState {
    pub node_counts: Arc<Vec<Node>>,
    pub abort: Arc<AtomicBool>,
}

impl Default for SharedState {
    /// No workers, no counters.
    fn default() -> (r: SharedState)
        ensures
            r.node_counts.len() == 0,
    {
        SharedState { node_counts: Arc::new(Vec::new()), abort: Arc::new(AtomicBool::new(false)) }
    }
}

impl SharedState {
    /// Installs a fresh counter array of `threads` slots, all zero. The caller has drained
    /// the previous workers: none of them still writes into the old array.
    pub fn resize_counters(&mut self, threads: usize)
        ensures
            final(self).node_counts.len() == threads,
            final(self).abort == old(self).abort,
    {
        let mut v: Vec<Node> = Vec::new();
        let mut i: usize = 0;
        while i < threads
            invariant
                i <= threads,
                v.len() == i,
            decreases threads - i,
        {
            v.push(Node(AtomicU64::new(0)));
            i = i + 1;
        }
        self.node_counts = Arc::new(v);
    }

    /// Zeroes every published count.
    pub fn reset_nodes(&self) {
        let counts: &Vec<Node> = &self.node_counts;
        let mut i: usize = 0;
        while i < counts.len()
            decreases counts.len() - i,
        {
            counts[i].0.store(0, Ordering::Relaxed);
            i = i + 1;
        }
    }

    /// Opens a search episode: clears the stop flag and zeroes the published counts.
    pub fn begin_search(&self) {
        self.abort.store(false, Ordering::Relaxed);
        self.reset_nodes();
    }

    /// The job of worker `id` in the current episode: its own copy of the root and the
    /// limits, handles on the shared counters and stop flag, and a local count of zero.
    pub fn job<P>(&self, id: usize, root: P, limits: Limits) -> (r: Thread<P>)
        ensures
            r.nodes == 0,
            r.id == id,
            r.root == root,
            r.limits == limits,
            r.best_move == NO_MOVE,
            !r.abort,
            r.node_counts == self.node_counts,
            r.global_abort == self.abort,
    {
        Thread::new(self.node_counts.clone(), id, root, limits, self.abort.clone())
    }
}

/// Per-worker job: its own copy of the root and the limits, its local node count, and
/// handles on the shared counters and the shared stop flag.
pub struct Thread<P> {
    pub node_counts: Arc<Vec<Node>>,
    pub id: usize,
    pub nodes: u64,
    pub root: P,
    pub best_move: Move,
    pub limits: Limits,
    pub abort: bool,
    pub global_abort: Arc<AtomicBool>,
}

impl<P> Thread<P> {
    /// A fresh job for worker `id`: no nodes counted, no move chosen, not aborted.
    pub fn new(
        node_counts: Arc<Vec<Node>>,
        id: usize,
        root: P,
        limits: Limits,
        global_abort: Arc<AtomicBool>,
    ) -> (r: Thread<P>)
        ensures
            r.nodes == 0,
            r.id == id,
            r.root == root,
            r.limits == limits,
            r.best_move == NO_MOVE,
            !r.abort,
            r.node_counts == node_counts,
            r.global_abort == global_abort,
    {
        Thread {
            node_counts,
            id,
            nodes: 0,
            root,
            best_move: NO_MOVE,
            limits,
            abort: false,
            global_abort,
        }
    }

    fn publish(&self) {
        if self.id < self.node_counts.len() {
            self.node_counts[self.id].0.store(self.nodes, Ordering::Relaxed);
        }
    }

    /// Counts one more node; the count stays at its maximum once there.
    pub fn inc_nodes(&mut self)
        ensures
            final(self).nodes == if old(self).nodes < u64::MAX {
                old(self).nodes + 1
            } else {
                old(self).nodes as int
            },
            final(self).id == old(self).id,
            final(self).root == old(self).root,
            final(self).limits == old(self).limits,
            final(self).best_move == old(self).best_move,
            final(self).abort == old(self).abort,
    {
        if self.nodes < u64::MAX {
            self.nodes = self.nodes + 1;
        }
        self.publish();
    }

    /// Counts `bump` more nodes, saturating at the largest count.
    pub fn bump_nodes(&mut self, bump: u64)
        ensures
            final(self).nodes == if old(self).nodes + bump <= u64::MAX {
                old(self).nodes + bump
            } else {
                u64::MAX as int
            },
            final(self).id == old(self).id,
            final(self).root == old(self).root,
            final(self).limits == old(self).limits,
            final(self).best_move == old(self).best_move,
            final(self).abort == old(self).abort,
    {
        if bump <= u64::MAX - self.nodes {
            self.nodes = self.nodes + bump;
        } else {
            self.nodes = u64::MAX;
        }
        self.publish();
    }

    /// This worker's own node count.
    pub fn get_local_nodes(&self) -> (r: u64)
        ensures
            r == self.nodes,
    {
        self.nodes
    }

    /// The sum of the counts that all workers have published, saturating at the largest
    /// count. Other workers store concurrently, so the sum is a snapshot only.
    pub fn get_global_nodes(&self) -> (r: u64) {
        let counts: &Vec<Node> = &self.node_counts;
        let mut total: u64 = 0;
        let mut i: usize = 0;
        while i < counts.len()
            decreases counts.len() - i,
        {
            let n = counts[i].0.load(Ordering::Relaxed);
            if n <= u64::MAX - total {
                total = total + n;
            } else {
                total = u64::MAX;
            }
            i = i + 1;
        }
        total
    }
}

} // verus!
