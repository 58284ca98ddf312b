//! The temporal adjacency set page: a fixed-capacity, append-only block
//! of `(t, triplet)` entries kept in insertion order, with the smallest
//! and largest timestamp it holds recorded for window pruning.

use vstd::prelude::*;

use crate::seqs::in_window;
use crate::tcell::{lemma_tc_window_push, tc_window};

verus! {

/// How many entries one adjacency page holds before it overflows.
pub const PAGE_SIZE: usize = 4;

/// The payload of one page entry: the owning vertex, the other endpoint
/// of a directed adjacency (absent for a vertex-only activity record),
/// and the key of the edge's shared property store.
#[derive(Debug, Clone, Copy, PartialEq, Eq, Structural)]
pub struct Triplet {
    pub vertex: u64,
    pub other: Option<u64>,
    pub edge_key: Option<u64>,
}

impl Triplet {
    /// A full adjacency triplet `(v, other, edge key)`.
    pub fn new(v: u64, other: u64, e: u64) -> (r: Triplet)
        ensures
            r == (Triplet { vertex: v, other: Some(other), edge_key: Some(e) }),
    {
        Triplet { vertex: v, other: Some(other), edge_key: Some(e) }
    }

    /// A vertex-only triplet, recording activity of `v` with no edge.
    pub fn vertex_only(v: u64) -> (r: Triplet)
        ensures
            r == (Triplet { vertex: v, other: None, edge_key: None }),
    {
        Triplet { vertex: v, other: None, edge_key: None }
    }
}

/// The error raised by an append on a page at capacity. It never leaves
/// the store: the page manager resolves it by linking an overflow page.
#[derive(Debug, Clone, Copy, PartialEq, Eq, Structural)]
pub enum PageError {
    PageFull,
}

/// One adjacency page. `overflow` is the index of the next page of the
/// same chain, always a later-allocated (larger) index; `owner` and
/// `out_chain` say which vertex's out- or in-chain the page belongs to.
#[derive(Debug)]
pub struct TemporalAdjacencySetPage {
    pub entries: Vec<(i64, Triplet)>,
    pub t_min: i64,
    pub t_max: i64,
    pub overflow: Option<usize>,
    pub owner: usize,
    pub out_chain: bool,
}

impl TemporalAdjacencySetPage {
    /// Every entry's timestamp lies within the recorded `[t_min, t_max]`
    /// bounds, and the page is within capacity.
    pub open spec fn wf(&self) -> bool {
        &&& self.entries@.len() <= PAGE_SIZE
        &&& forall|i: int|
            0 <= i < self.entries@.len() ==> self.t_min <= (#[trigger] self.entries@[i]).0
                <= self.t_max
    }

    /// A fresh, empty page for the given chain.
    pub fn new(owner: usize, out_chain: bool) -> (r: Self)
        ensures
            r.entries@ == Seq::<(i64, Triplet)>::empty(),
            r.overflow is None,
            r.owner == owner,
            r.out_chain == out_chain,
            r.wf(),
    {
        TemporalAdjacencySetPage {
            entries: Vec::new(),
            t_min: 0,
            t_max: 0,
            overflow: None,
            owner,
            out_chain,
        }
    }

    /// Append an entry to the next free slot, widening the page's time
    /// bounds; fails with `PageFull` exactly when the page is at
    /// capacity, leaving it unchanged.
    pub fn append(&mut self, triplet: Triplet, t: i64) -> (r: Result<(), PageError>)
        requires
            old(self).wf(),
        ensures
            final(self).wf(),
            r is Ok <==> old(self).entries@.len() < PAGE_SIZE,
            r is Ok ==> final(self).entries@ == old(self).entries@.push((t, triplet)),
            r is Err ==> final(self).entries@ == old(self).entries@,
            final(self).overflow == old(self).overflow,
            final(self).owner == old(self).owner,
            final(self).out_chain == old(self).out_chain,
    {
        if self.entries.len() >= PAGE_SIZE {
            return Err(PageError::PageFull);
        }
        if self.entries.len() == 0 {
            self.t_min = t;
            self.t_max = t;
        } else {
            if t < self.t_min {
                self.t_min = t;
            }
            if t > self.t_max {
                self.t_max = t;
            }
        }
        self.entries.push((t, triplet));
        Ok(())
    }

    /// The index of the next page of this chain, if one was linked.
    pub fn overflow_page(&self) -> (r: Option<usize>)
        ensures
            r == self.overflow,
    {
        self.overflow
    }

    /// The entries whose timestamp lies in the window, in insertion
    /// order. A page whose `[t_min, t_max]` span misses the window is
    /// skipped without touching its entries.
    pub fn scan(&self, t_start: i64, t_end: i64) -> (r: Vec<(i64, Triplet)>)
        requires
            self.wf(),
        ensures
            r@ == tc_window(self.entries@, t_start, t_end),
    {
        let n = self.entries.len();
        let mut r: Vec<(i64, Triplet)> = Vec::new();
        if n > 0 && (self.t_max < t_start || (t_end != i64::MAX && self.t_min >= t_end)) {
            proof {
                lemma_scan_skip(self.entries@, t_start, t_end, self.t_min, self.t_max);
            }
            return r;
        }
        let ghost s = self.entries@;
        let mut i: usize = 0;
        proof {
            assert(s.subrange(0, 0) =~= Seq::<(i64, Triplet)>::empty());
        }
        while i < n
            invariant
                i <= n,
                n == s.len(),
                self.entries@ == s,
                r@ == tc_window(s.subrange(0, i as int), t_start, t_end),
            decreases n - i,
        {
            let e = self.entries[i];
            proof {
                lemma_tc_window_push(s.subrange(0, i as int), s[i as int], t_start, t_end);
                assert(s.subrange(0, i + 1) =~= s.subrange(0, i as int).push(s[i as int]));
            }
            if crate::seqs::window_contains(t_start, t_end, e.0) {
                r.push(e);
            }
            i = i + 1;
        }
        proof {
            assert(s.subrange(0, n as int) =~= s);
        }
        r
    }
}

/// A window wholly before or after a page's time span keeps none of its
/// entries.
proof fn lemma_scan_skip(s: Seq<(i64, Triplet)>, a: i64, b: i64, t_min: i64, t_max: i64)
    requires
        forall|i: int| 0 <= i < s.len() ==> t_min <= (#[trigger] s[i]).0 <= t_max,
        t_max < a || (b != i64::MAX && t_min >= b),
    ensures
        tc_window(s, a, b) == Seq::<(i64, Triplet)>::empty(),
    decreases s.len(),
{
    if s.len() == 0 {
        assert(tc_window(s, a, b) =~= Seq::<(i64, Triplet)>::empty());
    } else {
        assert(s[s.len() - 1] == s.last());
        assert(!in_window(a, b, s.last().0));
        assert(forall|i: int|
            0 <= i < s.len() - 1 ==> #[trigger] s.drop_last()[i] == s[i]);
        lemma_scan_skip(s.drop_last(), a, b, t_min, t_max);
    }
}

} // verus!
