//! Symbolic path views: a multi-hop traversal is kept as a start point
//! and an ordered list of neighbour operations, and only materialised on
//! demand — no intermediate neighbour set is allocated until then.

use vstd::prelude::*;

use crate::graph::PagedGraph;
use crate::prop::Direction;
use crate::seqs::{window_meet_end, window_meet_start};

verus! {

/// One hop of a symbolic path, optionally carrying its own window, which
/// is intersected with the view's window when the path is materialised.
#[derive(Debug, Clone, Copy, PartialEq, Eq, Structural)]
pub enum Operations {
    Neighbours,
    InNeighbours,
    OutNeighbours,
    NeighboursWindow { t_start: i64, t_end: i64 },
    InNeighboursWindow { t_start: i64, t_end: i64 },
    OutNeighboursWindow { t_start: i64, t_end: i64 },
}

/// The direction a hop traverses.
pub open spec fn op_dir(op: Operations) -> Direction {
    match op {
        Operations::Neighbours => Direction::BOTH,
        Operations::InNeighbours => Direction::IN,
        Operations::OutNeighbours => Direction::OUT,
        Operations::NeighboursWindow { .. } => Direction::BOTH,
        Operations::InNeighboursWindow { .. } => Direction::IN,
        Operations::OutNeighboursWindow { .. } => Direction::OUT,
    }
}

/// The effective window start of a hop under a base window start.
pub open spec fn op_ws(op: Operations, a: i64) -> i64 {
    match op {
        Operations::NeighboursWindow { t_start, .. } => window_meet_start(a, t_start),
        Operations::InNeighboursWindow { t_start, .. } => window_meet_start(a, t_start),
        Operations::OutNeighboursWindow { t_start, .. } => window_meet_start(a, t_start),
        _ => a,
    }
}

/// The effective window end of a hop under a base window end.
pub open spec fn op_we(op: Operations, b: i64) -> i64 {
    match op {
        Operations::NeighboursWindow { t_end, .. } => window_meet_end(b, t_end),
        Operations::InNeighboursWindow { t_end, .. } => window_meet_end(b, t_end),
        Operations::OutNeighboursWindow { t_end, .. } => window_meet_end(b, t_end),
        _ => b,
    }
}

/// One hop applied to a frontier: the concatenation, in order, of each
/// frontier vertex's neighbour list (deduplication happens within each
/// single scan, not across the frontier).
pub open spec fn op_ids(g: PagedGraph, a: i64, b: i64, ids: Seq<u64>, op: Operations) -> Seq<u64>
    decreases ids.len(),
{
    if ids.len() == 0 {
        Seq::empty()
    } else {
        op_ids(g, a, b, ids.drop_last(), op) + g.spec_neighbours(
            ids.last(),
            op_dir(op),
            op_ws(op, a),
            op_we(op, b),
        )
    }
}

/// A whole path applied to a frontier, hop by hop.
pub open spec fn apply_ops(
    g: PagedGraph,
    a: i64,
    b: i64,
    ids: Seq<u64>,
    ops: Seq<Operations>,
) -> Seq<u64>
    decreases ops.len(),
{
    if ops.len() == 0 {
        ids
    } else {
        apply_ops(g, a, b, op_ids(g, a, b, ids, ops[0]), ops.subrange(1, ops.len() as int))
    }
}

/// A symbolic traversal from one vertex.
pub struct PathFromVertex<'a> {
    pub graph: &'a PagedGraph,
    pub t_start: i64,
    pub t_end: i64,
    pub start_at: u64,
    pub operations: Vec<Operations>,
}

impl<'a> PathFromVertex<'a> {
    pub open spec fn wf(self) -> bool {
        self.graph.wf()
    }

    /// A one-hop path.
    pub fn one(graph: &'a PagedGraph, t_start: i64, t_end: i64, start_at: u64, op: Operations)
        -> (r: Self)
        ensures
            r.graph == graph,
            r.t_start == t_start,
            r.t_end == t_end,
            r.start_at == start_at,
            r.operations@ == seq![op],
    {
        let mut operations: Vec<Operations> = Vec::new();
        operations.push(op);
        proof {
            assert(operations@ =~= seq![op]);
        }
        PathFromVertex { graph, t_start, t_end, start_at, operations }
    }

    /// Extend the path by one hop.
    pub fn hop(self, op: Operations) -> (r: Self)
        ensures
            r.graph == self.graph,
            r.t_start == self.t_start,
            r.t_end == self.t_end,
            r.start_at == self.start_at,
            r.operations@ == self.operations@.push(op),
    {
        let mut operations = self.operations;
        operations.push(op);
        PathFromVertex {
            graph: self.graph,
            t_start: self.t_start,
            t_end: self.t_end,
            start_at: self.start_at,
            operations,
        }
    }

    /// Extend over both directions.
    pub fn neighbours(self) -> (r: Self)
        ensures
            r.graph == self.graph,
            r.t_start == self.t_start,
            r.t_end == self.t_end,
            r.start_at == self.start_at,
            r.operations@ == self.operations@.push(Operations::Neighbours),
    {
        self.hop(Operations::Neighbours)
    }

    /// Extend over the in-direction.
    pub fn in_neighbours(self) -> (r: Self)
        ensures
            r.graph == self.graph,
            r.t_start == self.t_start,
            r.t_end == self.t_end,
            r.start_at == self.start_at,
            r.operations@ == self.operations@.push(Operations::InNeighbours),
    {
        self.hop(Operations::InNeighbours)
    }

    /// Extend over the out-direction.
    pub fn out_neighbours(self) -> (r: Self)
        ensures
            r.graph == self.graph,
            r.t_start == self.t_start,
            r.t_end == self.t_end,
            r.start_at == self.start_at,
            r.operations@ == self.operations@.push(Operations::OutNeighbours),
    {
        self.hop(Operations::OutNeighbours)
    }

    /// Materialise the path: apply the hops in order starting from the
    /// one-vertex frontier.
    pub fn id(&self) -> (r: Vec<u64>)
        requires
            self.wf(),
        ensures
            r@ == apply_ops(
                *self.graph,
                self.t_start,
                self.t_end,
                seq![self.start_at],
                self.operations@,
            ),
    {
        let mut ids: Vec<u64> = Vec::new();
        ids.push(self.start_at);
        proof {
            assert(ids@ =~= seq![self.start_at]);
        }
        let n = self.operations.len();
        let ghost ops = self.operations@;
        proof {
            assert(ops.subrange(0, n as int) =~= ops);
        }
        let mut i: usize = 0;
        while i < n
            invariant
                self.wf(),
                i <= n,
                n == ops.len(),
                self.operations@ == ops,
                apply_ops(*self.graph, self.t_start, self.t_end, seq![self.start_at], ops)
                    == apply_ops(
                    *self.graph,
                    self.t_start,
                    self.t_end,
                    ids@,
                    ops.subrange(i as int, n as int),
                ),
            decreases n - i,
        {
            let op = self.operations[i];
            let next = apply_one(self.graph, self.t_start, self.t_end, &ids, op);
            proof {
                let rest = ops.subrange(i as int, n as int);
                assert(rest[0] == op);
                assert(rest.subrange(1, rest.len() as int) =~= ops.subrange(i + 1, n as int));
                assert(apply_ops(*self.graph, self.t_start, self.t_end, ids@, rest) == apply_ops(
                    *self.graph,
                    self.t_start,
                    self.t_end,
                    next@,
                    ops.subrange(i + 1, n as int),
                ));
            }
            ids = next;
            i = i + 1;
        }
        proof {
            assert(ops.subrange(n as int, n as int) =~= Seq::<Operations>::empty());
        }
        ids
    }
}

/// Apply one hop to a frontier.
fn apply_one(g: &PagedGraph, a: i64, b: i64, ids: &Vec<u64>, op: Operations) -> (r: Vec<u64>)
    requires
        g.wf(),
    ensures
        r@ == op_ids(*g, a, b, ids@, op),
{
    let (ws, we) = match op {
        Operations::NeighboursWindow { t_start, t_end }
        | Operations::InNeighboursWindow { t_start, t_end }
        | Operations::OutNeighboursWindow { t_start, t_end } => {
            let ns = if a >= t_start {
                a
            } else {
                t_start
            };
            let ne = if b <= t_end {
                b
            } else {
                t_end
            };
            (ns, ne)
        },
        _ => (a, b),
    };
    let d = match op {
        Operations::Neighbours | Operations::NeighboursWindow { .. } => Direction::BOTH,
        Operations::InNeighbours | Operations::InNeighboursWindow { .. } => Direction::IN,
        Operations::OutNeighbours | Operations::OutNeighboursWindow { .. } => Direction::OUT,
    };
    proof {
        assert(ws == op_ws(op, a));
        assert(we == op_we(op, b));
        assert(d == op_dir(op));
    }
    let n = ids.len();
    let ghost s = ids@;
    let mut r: Vec<u64> = Vec::new();
    let mut i: usize = 0;
    proof {
        assert(s.subrange(0, 0) =~= Seq::<u64>::empty());
    }
    while i < n
        invariant
            g.wf(),
            i <= n,
            n == s.len(),
            ids@ == s,
            ws == op_ws(op, a),
            we == op_we(op, b),
            d == op_dir(op),
            r@ == op_ids(*g, a, b, s.subrange(0, i as int), op),
        decreases n - i,
    {
        let mut nb = g.neighbours(ids[i], d, ws, we);
        proof {
            let pre = s.subrange(0, i + 1);
            assert(pre.drop_last() =~= s.subrange(0, i as int));
            assert(pre.last() == s[i as int]);
        }
        r.append(&mut nb);
        i = i + 1;
    }
    proof {
        assert(s.subrange(0, n as int) =~= s);
    }
    r
}

/// A symbolic traversal from every vertex of the store; materialising it
/// yields one id list per start vertex.
pub struct PathFromGraph<'a> {
    pub graph: &'a PagedGraph,
    pub t_start: i64,
    pub t_end: i64,
    pub operations: Vec<Operations>,
}

impl<'a> PathFromGraph<'a> {
    pub open spec fn wf(self) -> bool {
        self.graph.wf()
    }

    /// A one-hop path from every vertex.
    pub fn one(graph: &'a PagedGraph, t_start: i64, t_end: i64, op: Operations) -> (r: Self)
        ensures
            r.graph == graph,
            r.t_start == t_start,
            r.t_end == t_end,
            r.operations@ == seq![op],
    {
        let mut operations: Vec<Operations> = Vec::new();
        operations.push(op);
        proof {
            assert(operations@ =~= seq![op]);
        }
        PathFromGraph { graph, t_start, t_end, operations }
    }

    /// Extend the path by one hop.
    pub fn hop(self, op: Operations) -> (r: Self)
        ensures
            r.graph == self.graph,
            r.t_start == self.t_start,
            r.t_end == self.t_end,
            r.operations@ == self.operations@.push(op),
    {
        let mut operations = self.operations;
        operations.push(op);
        PathFromGraph { graph: self.graph, t_start: self.t_start, t_end: self.t_end, operations }
    }

    /// Extend over both directions.
    pub fn neighbours(self) -> (r: Self)
        ensures
            r.graph == self.graph,
            r.t_start == self.t_start,
            r.t_end == self.t_end,
            r.operations@ == self.operations@.push(Operations::Neighbours),
    {
        self.hop(Operations::Neighbours)
    }

    /// Extend over the in-direction.
    pub fn in_neighbours(self) -> (r: Self)
        ensures
            r.graph == self.graph,
            r.t_start == self.t_start,
            r.t_end == self.t_end,
            r.operations@ == self.operations@.push(Operations::InNeighbours),
    {
        self.hop(Operations::InNeighbours)
    }

    /// Extend over the out-direction.
    pub fn out_neighbours(self) -> (r: Self)
        ensures
            r.graph == self.graph,
            r.t_start == self.t_start,
            r.t_end == self.t_end,
            r.operations@ == self.operations@.push(Operations::OutNeighbours),
    {
        self.hop(Operations::OutNeighbours)
    }

    /// Materialise: one id list per start vertex, in logical-id order.
    pub fn id(&self) -> (r: Vec<Vec<u64>>)
        requires
            self.wf(),
        ensures
            r@.len() == self.graph.n_vertices(),
            forall|i: int|
                0 <= i < r@.len() ==> (#[trigger] r@[i])@ == apply_ops(
                    *self.graph,
                    self.t_start,
                    self.t_end,
                    seq![self.graph.logical_to_global@[i]],
                    self.operations@,
                ),
    {
        let ids = self.graph.vertex_ids();
        let n = ids.len();
        let mut r: Vec<Vec<u64>> = Vec::new();
        let mut i: usize = 0;
        while i < n
            invariant
                self.wf(),
                i <= n,
                n == self.graph.n_vertices(),
                ids@ == self.graph.logical_to_global@,
                r@.len() == i,
                forall|j: int|
                    0 <= j < i ==> (#[trigger] r@[j])@ == apply_ops(
                        *self.graph,
                        self.t_start,
                        self.t_end,
                        seq![self.graph.logical_to_global@[j]],
                        self.operations@,
                    ),
            decreases n - i,
        {
            let p = PathFromVertex {
                graph: self.graph,
                t_start: self.t_start,
                t_end: self.t_end,
                start_at: ids[i],
                operations: clone_ops(&self.operations),
            };
            let one = p.id();
            r.push(one);
            i = i + 1;
        }
        r
    }
}

/// Copy a list of hops (each hop is a plain value).
fn clone_ops(ops: &Vec<Operations>) -> (r: Vec<Operations>)
    ensures
        r@ == ops@,
{
    let n = ops.len();
    let mut r: Vec<Operations> = Vec::new();
    let mut i: usize = 0;
    while i < n
        invariant
            i <= n,
            n == ops@.len(),
            r@ == ops@.subrange(0, i as int),
        decreases n - i,
    {
        r.push(ops[i]);
        proof {
            assert(r@ =~= ops@.subrange(0, i + 1));
        }
        i = i + 1;
    }
    proof {
        assert(ops@.subrange(0, n as int) =~= ops@);
    }
    r
}

} // verus!
