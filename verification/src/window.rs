//! The windowed views: a graph, vertex or edge view is a cheap handle
//! `(store reference, window)`; every operation is the corresponding
//! store primitive narrowed to the view's window, and deriving a view
//! from a view intersects the windows.

use vstd::prelude::*;

use crate::graph::PagedGraph;
use crate::page::Triplet;
use crate::prop::{Direction, Prop, TEdge};
use crate::seqs::{window_meet_end, window_meet_start};
use crate::tcell::{tc_has_key, tc_latest, tc_window};

verus! {

/// A graph view restricted to `[t_start, t_end)`.
pub struct WindowedGraph<'a> {
    pub graph: &'a PagedGraph,
    pub t_start: i64,
    pub t_end: i64,
}

/// A vertex view: a graph view narrowed to one vertex.
pub struct WindowedVertex<'a> {
    pub graph: &'a PagedGraph,
    pub t_start: i64,
    pub t_end: i64,
    pub id: u64,
}

/// An edge view: a graph view narrowed to one endpoint pair, carrying
/// the time of the pair's first edge event inside the window.
pub struct WindowedEdge<'a> {
    pub graph: &'a PagedGraph,
    pub t_start: i64,
    pub t_end: i64,
    pub src: u64,
    pub dst: u64,
    pub time: Option<i64>,
}

/// The ids of the vertices visible in the window among the first `l`
/// logical ids, in logical-id order.
pub open spec fn visible_ids(g: PagedGraph, a: i64, b: i64, l: int) -> Seq<u64>
    decreases l,
{
    if l <= 0 {
        Seq::empty()
    } else {
        let rest = visible_ids(g, a, b, l - 1);
        if g.spec_has_vertex(g.logical_to_global@[l - 1], a, b) {
            rest.push(g.logical_to_global@[l - 1])
        } else {
            rest
        }
    }
}

/// A visible vertex's id is in the visible-id list.
pub proof fn lemma_visible_contains(g: PagedGraph, a: i64, b: i64, x: u64)
    requires
        g.wf(),
        g.spec_has_vertex(x, a, b),
    ensures
        visible_ids(g, a, b, g.n_vertices() as int).contains(x),
{
    lemma_visible_upto(g, a, b, x, g.spec_lid(x) + 1, g.n_vertices() as int);
}

/// Once a visible vertex's logical id is below the cut, its id stays in
/// every longer prefix of the visible-id list.
proof fn lemma_visible_upto(g: PagedGraph, a: i64, b: i64, x: u64, l0: int, l: int)
    requires
        g.wf(),
        g.spec_has_vertex(x, a, b),
        l0 == g.spec_lid(x) + 1,
        0 <= g.spec_lid(x) < g.n_vertices(),
        l0 <= l <= g.n_vertices(),
    ensures
        visible_ids(g, a, b, l).contains(x),
    decreases l,
{
    if l == l0 {
        assert(g.logical_to_global@[l - 1] == x);
        let rest = visible_ids(g, a, b, l - 1);
        assert(visible_ids(g, a, b, l) == rest.push(x));
        crate::seqs::lemma_push_contains(rest, x, x);
    } else {
        lemma_visible_upto(g, a, b, x, l0, l - 1);
        let rest = visible_ids(g, a, b, l - 1);
        let v = g.logical_to_global@[l - 1];
        if g.spec_has_vertex(v, a, b) {
            crate::seqs::lemma_push_contains(rest, v, x);
        }
    }
}

/// The visible-id list names each visible vertex exactly once: it is as
/// long as `num_vertices` counts, has no repeats, and holds exactly the
/// visible ids.
pub proof fn lemma_visible_ids(g: PagedGraph, a: i64, b: i64, l: int)
    requires
        g.wf(),
        0 <= l <= g.n_vertices(),
    ensures
        visible_ids(g, a, b, l).len() == g.spec_num_vertices_upto(a, b, l),
        crate::seqs::no_dups(visible_ids(g, a, b, l)),
        forall|x: u64|
            #[trigger] visible_ids(g, a, b, l).contains(x) ==> g.spec_has_vertex(x, a, b)
                && g.spec_known(x) && g.spec_lid(x) < l,
    decreases l,
{
    if l > 0 {
        lemma_visible_ids(g, a, b, l - 1);
        let rest = visible_ids(g, a, b, l - 1);
        let v = g.logical_to_global@[l - 1];
        if g.spec_has_vertex(v, a, b) {
            assert(g.spec_known(v) && g.spec_lid(v) == l - 1);
            assert(!rest.contains(v));
            assert forall|i: int, j: int|
                0 <= i < j < rest.push(v).len() implies rest.push(v)[i] != rest.push(v)[j] by {
                if j < rest.len() {
                } else {
                    assert(rest[i] == rest.push(v)[i]);
                    assert(!rest.contains(v));
                }
            }
            assert forall|x: u64| #[trigger]
                rest.push(v).contains(x) implies g.spec_has_vertex(x, a, b) && g.spec_known(x)
                && g.spec_lid(x) < l by {
                crate::seqs::lemma_push_contains(rest, v, x);
            }
        }
    }
}

/// The time of the first event of a log whose destination is `dst`.
pub open spec fn first_edge_time(s: Seq<(i64, Triplet)>, dst: u64) -> Option<i64>
    decreases s.len(),
{
    if s.len() == 0 {
        None
    } else if s[0].1.other == Some(dst) {
        Some(s[0].0)
    } else {
        first_edge_time(s.subrange(1, s.len() as int), dst)
    }
}

impl<'a> WindowedGraph<'a> {
    pub open spec fn wf(self) -> bool {
        self.graph.wf()
    }

    /// A view of `graph` restricted to `[t_start, t_end)`.
    pub fn new(graph: &'a PagedGraph, t_start: i64, t_end: i64) -> (r: Self)
        ensures
            r.graph == graph,
            r.t_start == t_start,
            r.t_end == t_end,
    {
        WindowedGraph { graph, t_start, t_end }
    }

    /// Restrict this view further: the result's window is the
    /// intersection `[max, min)` of the two windows, so chaining windows
    /// composes (see `lemma_window_compose`).
    pub fn window(&self, t_start: i64, t_end: i64) -> (r: WindowedGraph<'a>)
        ensures
            r.graph == self.graph,
            r.t_start == window_meet_start(self.t_start, t_start),
            r.t_end == window_meet_end(self.t_end, t_end),
    {
        let ns = if self.t_start >= t_start {
            self.t_start
        } else {
            t_start
        };
        let ne = if self.t_end <= t_end {
            self.t_end
        } else {
            t_end
        };
        WindowedGraph { graph: self.graph, t_start: ns, t_end: ne }
    }

    /// The smallest timestamp ever written to the store.
    pub fn earliest_time(&self) -> (r: Option<i64>)
        requires
            self.wf(),
        ensures
            match r {
                None => self.graph.temporal_index@.len() == 0,
                Some(k) => tc_has_key(self.graph.temporal_index@, k) && forall|x: i64|
                    #[trigger] tc_has_key(self.graph.temporal_index@, x) ==> k <= x,
            },
    {
        self.graph.earliest_time()
    }

    /// The largest timestamp ever written to the store.
    pub fn latest_time(&self) -> (r: Option<i64>)
        requires
            self.wf(),
        ensures
            match r {
                None => self.graph.temporal_index@.len() == 0,
                Some(k) => tc_has_key(self.graph.temporal_index@, k) && forall|x: i64|
                    #[trigger] tc_has_key(self.graph.temporal_index@, x) ==> x <= k,
            },
    {
        self.graph.latest_time()
    }

    /// The number of distinct adjacent pairs in the window: the sum over
    /// every vertex of its windowed out-degree.
    pub fn num_edges(&self) -> (r: usize)
        requires
            self.wf(),
        ensures
            r == self.graph.spec_sum_out_degrees(
                self.t_start,
                self.t_end,
                self.graph.n_vertices() as int,
            ),
    {
        self.graph.num_edges(self.t_start, self.t_end)
    }

    /// The number of vertices that exist in the window.
    pub fn num_vertices(&self) -> (r: usize)
        requires
            self.wf(),
        ensures
            r == self.graph.spec_num_vertices_upto(
                self.t_start,
                self.t_end,
                self.graph.n_vertices() as int,
            ),
    {
        self.graph.num_vertices(self.t_start, self.t_end)
    }

    /// Whether the vertex exists in the window.
    pub fn has_vertex(&self, v: u64) -> (r: bool)
        requires
            self.wf(),
        ensures
            r == self.graph.spec_has_vertex(v, self.t_start, self.t_end),
    {
        self.graph.has_vertex(v, self.t_start, self.t_end)
    }

    /// Whether some edge event `src -> dst` lies in the window.
    pub fn has_edge(&self, src: u64, dst: u64) -> (r: bool)
        requires
            self.wf(),
        ensures
            r == self.graph.spec_has_edge(src, dst, self.t_start, self.t_end),
    {
        self.graph.has_edge(src, dst, self.t_start, self.t_end)
    }

    /// A vertex view, for a vertex that exists in the window.
    pub fn vertex(&self, v: u64) -> (r: Option<WindowedVertex<'a>>)
        requires
            self.wf(),
        ensures
            match r {
                Some(wv) => self.graph.spec_has_vertex(v, self.t_start, self.t_end) && wv.graph
                    == self.graph && wv.t_start == self.t_start && wv.t_end == self.t_end && wv.id
                    == v,
                None => !self.graph.spec_has_vertex(v, self.t_start, self.t_end),
            },
    {
        if self.graph.has_vertex(v, self.t_start, self.t_end) {
            Some(WindowedVertex { graph: self.graph, t_start: self.t_start, t_end: self.t_end, id: v })
        } else {
            None
        }
    }

    /// The ids of the vertices that exist in the window, in logical-id
    /// order.
    pub fn vertex_ids(&self) -> (r: Vec<u64>)
        requires
            self.wf(),
        ensures
            r@ == visible_ids(*self.graph, self.t_start, self.t_end, self.graph.n_vertices() as int),
            r@.len() == self.graph.spec_num_vertices_upto(
                self.t_start,
                self.t_end,
                self.graph.n_vertices() as int,
            ),
            crate::seqs::no_dups(r@),
            forall|i: int|
                0 <= i < r@.len() ==> self.graph.spec_has_vertex(
                    #[trigger] r@[i],
                    self.t_start,
                    self.t_end,
                ),
            forall|g: u64|
                self.graph.spec_has_vertex(g, self.t_start, self.t_end) ==> r@.contains(g),
    {
        let all = self.graph.vertex_ids();
        let n = all.len();
        let mut r: Vec<u64> = Vec::new();
        let mut i: usize = 0;
        while i < n
            invariant
                self.wf(),
                i <= n,
                n == self.graph.n_vertices(),
                all@ == self.graph.logical_to_global@,
                r@ == visible_ids(*self.graph, self.t_start, self.t_end, i as int),
            decreases n - i,
        {
            let g = all[i];
            if self.graph.has_vertex(g, self.t_start, self.t_end) {
                r.push(g);
            }
            i = i + 1;
        }
        proof {
            lemma_visible_ids(
                *self.graph,
                self.t_start,
                self.t_end,
                self.graph.n_vertices() as int,
            );
            let ids = visible_ids(
                *self.graph,
                self.t_start,
                self.t_end,
                self.graph.n_vertices() as int,
            );
            assert forall|j: int|
                0 <= j < ids.len() implies self.graph.spec_has_vertex(
                #[trigger] ids[j],
                self.t_start,
                self.t_end,
            ) by {
                assert(ids.contains(ids[j]));
            }
            assert forall|g: u64|
                self.graph.spec_has_vertex(g, self.t_start, self.t_end) implies ids.contains(
                g,
            ) by {
                lemma_visible_contains(*self.graph, self.t_start, self.t_end, g);
            }
        }
        r
    }

    /// Vertex views for every vertex that exists in the window: one view
    /// per visible id, in logical-id order.
    pub fn vertices(&self) -> (r: Vec<WindowedVertex<'a>>)
        requires
            self.wf(),
        ensures
            ({
                let ids = visible_ids(
                    *self.graph,
                    self.t_start,
                    self.t_end,
                    self.graph.n_vertices() as int,
                );
                &&& r@.len() == ids.len()
                &&& (forall|i: int|
                    0 <= i < r@.len() ==> {
                        &&& (#[trigger] r@[i]).id == ids[i]
                        &&& r@[i].graph == self.graph
                        &&& r@[i].t_start == self.t_start
                        &&& r@[i].t_end == self.t_end
                    })
            }),
    {
        let ids = self.vertex_ids();
        let ghost idsg = ids@;
        let n = ids.len();
        let mut r: Vec<WindowedVertex<'a>> = Vec::new();
        let mut i: usize = 0;
        while i < n
            invariant
                self.wf(),
                i <= n,
                n == idsg.len(),
                ids@ == idsg,
                r@.len() == i,
                forall|j: int|
                    0 <= j < i ==> {
                        &&& (#[trigger] r@[j]).id == idsg[j]
                        &&& r@[j].graph == self.graph
                        &&& r@[j].t_start == self.t_start
                        &&& r@[j].t_end == self.t_end
                    },
            decreases n - i,
        {
            r.push(
                WindowedVertex {
                    graph: self.graph,
                    t_start: self.t_start,
                    t_end: self.t_end,
                    id: ids[i],
                },
            );
            i = i + 1;
        }
        r
    }

    /// An edge view, for a pair with an edge event in the window; the
    /// view carries the time of the pair's first in-window event.
    pub fn edge(&self, src: u64, dst: u64) -> (r: Option<WindowedEdge<'a>>)
        requires
            self.wf(),
        ensures
            match r {
                Some(we) => {
                    &&& self.graph.spec_has_edge(src, dst, self.t_start, self.t_end)
                    &&& we.graph == self.graph
                    &&& we.t_start == self.t_start
                    &&& we.t_end == self.t_end
                    &&& we.src == src
                    &&& we.dst == dst
                    &&& we.time == first_edge_time(
                        self.graph.spec_events(src, Direction::OUT, self.t_start, self.t_end),
                        dst,
                    )
                    &&& we.time is Some
                },
                None => !self.graph.spec_has_edge(src, dst, self.t_start, self.t_end),
            },
    {
        let evs = self.graph.events(src, Direction::OUT, self.t_start, self.t_end);
        let ghost es = evs@;
        let n = evs.len();
        let mut i: usize = 0;
        proof {
            assert(es.subrange(0, n as int) =~= es);
        }
        while i < n
            invariant
                self.wf(),
                i <= n,
                n == es.len(),
                evs@ == es,
                es == self.graph.spec_events(src, Direction::OUT, self.t_start, self.t_end),
                first_edge_time(es, dst) == first_edge_time(es.subrange(i as int, n as int), dst),
                forall|k: int| 0 <= k < i ==> (#[trigger] es[k]).1.other != Some(dst),
            decreases n - i,
        {
            let e = evs[i];
            let ghost suffix = es.subrange(i as int, n as int);
            proof {
                assert(suffix[0] == es[i as int]);
                assert(suffix.subrange(1, suffix.len() as int) =~= es.subrange(
                    i + 1,
                    n as int,
                ));
            }
            let hit = match e.1.other {
                Some(d) => d == dst,
                None => false,
            };
            if hit {
                proof {
                    assert(es[i as int].1.other == Some(dst));
                    crate::graph::lemma_edge_dsts_contains(es, i as int);
                }
                return Some(
                    WindowedEdge {
                        graph: self.graph,
                        t_start: self.t_start,
                        t_end: self.t_end,
                        src,
                        dst,
                        time: Some(e.0),
                    },
                );
            }
            proof {
                assert(es[i as int].1.other != Some(dst));
            }
            i = i + 1;
        }
        proof {
            assert(es.subrange(n as int, n as int) =~= Seq::<(i64, Triplet)>::empty());
            if self.graph.spec_has_edge(src, dst, self.t_start, self.t_end) {
                crate::graph::lemma_edge_dsts_exists(es, dst);
            }
        }
        None
    }

    /// Every edge event in the window, grouped by source vertex in
    /// logical-id order, as flat records.
    pub fn edges(&self) -> (r: Vec<TEdge>)
        requires
            self.wf(),
        ensures
            r@ == graph_edges(
                *self.graph,
                self.t_start,
                self.t_end,
                self.graph.n_vertices() as int,
            ),
            forall|i: int|
                0 <= i < r@.len() ==> {
                    &&& (#[trigger] r@[i]).t is Some
                    &&& self.graph.spec_has_edge(r@[i].src, r@[i].dst, self.t_start, self.t_end)
                    &&& !r@[i].is_remote
                },
    {
        let ids = self.graph.vertex_ids();
        let ghost idsg = ids@;
        let n = ids.len();
        let mut r: Vec<TEdge> = Vec::new();
        let mut i: usize = 0;
        while i < n
            invariant
                self.wf(),
                i <= n,
                n == self.graph.n_vertices(),
                ids@ == idsg,
                idsg == self.graph.logical_to_global@,
                r@ == graph_edges(*self.graph, self.t_start, self.t_end, i as int),
                forall|j: int|
                    0 <= j < r@.len() ==> {
                        &&& (#[trigger] r@[j]).t is Some
                        &&& self.graph.spec_has_edge(
                            r@[j].src,
                            r@[j].dst,
                            self.t_start,
                            self.t_end,
                        )
                        &&& !r@[j].is_remote
                    },
            decreases n - i,
        {
            let g = ids[i];
            let evs = self.graph.edges(g, Direction::OUT, self.t_start, self.t_end);
            let m = evs.len();
            let ghost es = evs@;
            let ghost r0 = r@;
            let mut k: usize = 0;
            proof {
                assert(es.subrange(0, 0) =~= Seq::<(i64, Triplet)>::empty());
                assert(r0 + tedges_of(g, es.subrange(0, 0)) =~= r0);
            }
            while k < m
                invariant
                    self.wf(),
                    k <= m,
                    m == es.len(),
                    evs@ == es,
                    es == crate::graph::edge_only(
                        self.graph.spec_events(g, Direction::OUT, self.t_start, self.t_end),
                    ),
                    r@ == r0 + tedges_of(g, es.subrange(0, k as int)),
                    forall|j: int|
                        0 <= j < r@.len() ==> {
                            &&& (#[trigger] r@[j]).t is Some
                            &&& self.graph.spec_has_edge(
                                r@[j].src,
                                r@[j].dst,
                                self.t_start,
                                self.t_end,
                            )
                            &&& !r@[j].is_remote
                        },
                decreases m - k,
            {
                let e = evs[k];
                proof {
                    lemma_tedges_push(g, es.subrange(0, k as int), es[k as int]);
                    assert(es.subrange(0, k + 1) =~= es.subrange(0, k as int).push(es[k as int]));
                    crate::graph::lemma_edge_only_sub(
                        self.graph.spec_events(g, Direction::OUT, self.t_start, self.t_end),
                        k as int,
                    );
                }
                match e.1.other {
                    Some(d) => {
                        proof {
                            lemma_edge_event_visible(
                                *self.graph,
                                g,
                                self.t_start,
                                self.t_end,
                                k as int,
                            );
                            assert(r0 + tedges_of(g, es.subrange(0, k as int)).push(
                                TEdge { src: g, dst: d, t: Some(e.0), is_remote: false },
                            ) =~= (r0 + tedges_of(g, es.subrange(0, k as int))).push(
                                TEdge { src: g, dst: d, t: Some(e.0), is_remote: false },
                            ));
                        }
                        r.push(TEdge { src: g, dst: d, t: Some(e.0), is_remote: false });
                    },
                    None => {
                        proof {
                            assert(false);
                        }
                    },
                }
                k = k + 1;
            }
            proof {
                assert(es.subrange(0, m as int) =~= es);
            }
            i = i + 1;
        }
        r
    }
}

/// The flat records of one vertex's windowed out-edge events: each
/// carries the source id, the destination, and the event time.
pub open spec fn tedges_of(src: u64, s: Seq<(i64, Triplet)>) -> Seq<TEdge>
    decreases s.len(),
{
    if s.len() == 0 {
        Seq::empty()
    } else {
        tedges_of(src, s.drop_last()).push(
            TEdge { src, dst: s.last().1.other->0, t: Some(s.last().0), is_remote: false },
        )
    }
}

/// Unfolds `tedges_of` one step at the pushed end.
proof fn lemma_tedges_push(src: u64, s: Seq<(i64, Triplet)>, x: (i64, Triplet))
    ensures
        tedges_of(src, s.push(x)) == tedges_of(src, s).push(
            TEdge { src, dst: x.1.other->0, t: Some(x.0), is_remote: false },
        ),
{
    assert(s.push(x).drop_last() =~= s);
}

/// Every edge event in the window, as flat records: the concatenation,
/// over vertices in logical-id order, of each vertex's windowed out-edge
/// events.
pub open spec fn graph_edges(g: PagedGraph, a: i64, b: i64, l: int) -> Seq<TEdge>
    decreases l,
{
    if l <= 0 {
        Seq::empty()
    } else {
        graph_edges(g, a, b, l - 1) + tedges_of(
            g.logical_to_global@[l - 1],
            crate::graph::edge_only(
                g.spec_events(g.logical_to_global@[l - 1], Direction::OUT, a, b),
            ),
        )
    }
}

/// An entry of the filtered edge list is a visible edge of its source.
proof fn lemma_edge_event_visible(g: PagedGraph, gid: u64, a: i64, b: i64, k: int)
    requires
        0 <= k < crate::graph::edge_only(g.spec_events(gid, Direction::OUT, a, b)).len(),
        crate::graph::edge_only(g.spec_events(gid, Direction::OUT, a, b))[k].1.other is Some,
    ensures
        g.spec_has_edge(
            gid,
            crate::graph::edge_only(g.spec_events(gid, Direction::OUT, a, b))[k].1.other->0,
            a,
            b,
        ),
{
    let s = g.spec_events(gid, Direction::OUT, a, b);
    crate::graph::lemma_edge_only_sub(s, k);
    let i = choose|i: int|
        0 <= i < s.len() && s[i] == crate::graph::edge_only(s)[k];
    crate::graph::lemma_edge_dsts_contains(s, i);
}

impl<'a> WindowedVertex<'a> {
    pub open spec fn wf(self) -> bool {
        self.graph.wf()
    }

    /// This vertex's global id.
    pub fn id(&self) -> (r: u64)
        ensures
            r == self.id,
    {
        self.id
    }

    /// Distinct neighbours over both directions in the view's window.
    pub fn degree(&self) -> (r: usize)
        requires
            self.wf(),
        ensures
            r == self.graph.spec_degree(self.id, Direction::BOTH, self.t_start, self.t_end),
    {
        self.graph.degree(self.id, Direction::BOTH, self.t_start, self.t_end)
    }

    /// Distinct in-neighbours in the view's window.
    pub fn in_degree(&self) -> (r: usize)
        requires
            self.wf(),
        ensures
            r == self.graph.spec_degree(self.id, Direction::IN, self.t_start, self.t_end),
    {
        self.graph.degree(self.id, Direction::IN, self.t_start, self.t_end)
    }

    /// Distinct out-neighbours in the view's window.
    pub fn out_degree(&self) -> (r: usize)
        requires
            self.wf(),
        ensures
            r == self.graph.spec_degree(self.id, Direction::OUT, self.t_start, self.t_end),
    {
        self.graph.degree(self.id, Direction::OUT, self.t_start, self.t_end)
    }

    /// As `degree`, over the intersection with a further window.
    pub fn degree_window(&self, t_start: i64, t_end: i64) -> (r: usize)
        requires
            self.wf(),
        ensures
            r == self.graph.spec_degree(
                self.id,
                Direction::BOTH,
                window_meet_start(self.t_start, t_start),
                window_meet_end(self.t_end, t_end),
            ),
    {
        let ns = if self.t_start >= t_start {
            self.t_start
        } else {
            t_start
        };
        let ne = if self.t_end <= t_end {
            self.t_end
        } else {
            t_end
        };
        self.graph.degree(self.id, Direction::BOTH, ns, ne)
    }

    /// As `in_degree`, over the intersection with a further window.
    pub fn in_degree_window(&self, t_start: i64, t_end: i64) -> (r: usize)
        requires
            self.wf(),
        ensures
            r == self.graph.spec_degree(
                self.id,
                Direction::IN,
                window_meet_start(self.t_start, t_start),
                window_meet_end(self.t_end, t_end),
            ),
    {
        let ns = if self.t_start >= t_start {
            self.t_start
        } else {
            t_start
        };
        let ne = if self.t_end <= t_end {
            self.t_end
        } else {
            t_end
        };
        self.graph.degree(self.id, Direction::IN, ns, ne)
    }

    /// As `out_degree`, over the intersection with a further window.
    pub fn out_degree_window(&self, t_start: i64, t_end: i64) -> (r: usize)
        requires
            self.wf(),
        ensures
            r == self.graph.spec_degree(
                self.id,
                Direction::OUT,
                window_meet_start(self.t_start, t_start),
                window_meet_end(self.t_end, t_end),
            ),
    {
        let ns = if self.t_start >= t_start {
            self.t_start
        } else {
            t_start
        };
        let ne = if self.t_end <= t_end {
            self.t_end
        } else {
            t_end
        };
        self.graph.degree(self.id, Direction::OUT, ns, ne)
    }

    /// This vertex's edge events over both directions in the window.
    pub fn edges(&self) -> (r: Vec<(i64, Triplet)>)
        requires
            self.wf(),
        ensures
            r@ == crate::graph::edge_only(
                self.graph.spec_events(self.id, Direction::BOTH, self.t_start, self.t_end),
            ),
    {
        self.graph.edges(self.id, Direction::BOTH, self.t_start, self.t_end)
    }

    /// This vertex's inbound edge events in the window.
    pub fn in_edges(&self) -> (r: Vec<(i64, Triplet)>)
        requires
            self.wf(),
        ensures
            r@ == crate::graph::edge_only(
                self.graph.spec_events(self.id, Direction::IN, self.t_start, self.t_end),
            ),
    {
        self.graph.edges(self.id, Direction::IN, self.t_start, self.t_end)
    }

    /// This vertex's outbound edge events in the window.
    pub fn out_edges(&self) -> (r: Vec<(i64, Triplet)>)
        requires
            self.wf(),
        ensures
            r@ == crate::graph::edge_only(
                self.graph.spec_events(self.id, Direction::OUT, self.t_start, self.t_end),
            ),
    {
        self.graph.edges(self.id, Direction::OUT, self.t_start, self.t_end)
    }

    /// As `edges`, over the intersection with a further window.
    pub fn edges_window(&self, t_start: i64, t_end: i64) -> (r: Vec<(i64, Triplet)>)
        requires
            self.wf(),
        ensures
            r@ == crate::graph::edge_only(
                self.graph.spec_events(
                    self.id,
                    Direction::BOTH,
                    window_meet_start(self.t_start, t_start),
                    window_meet_end(self.t_end, t_end),
                ),
            ),
    {
        let ns = if self.t_start >= t_start {
            self.t_start
        } else {
            t_start
        };
        let ne = if self.t_end <= t_end {
            self.t_end
        } else {
            t_end
        };
        self.graph.edges(self.id, Direction::BOTH, ns, ne)
    }

    /// As `in_edges`, over the intersection with a further window.
    pub fn in_edges_window(&self, t_start: i64, t_end: i64) -> (r: Vec<(i64, Triplet)>)
        requires
            self.wf(),
        ensures
            r@ == crate::graph::edge_only(
                self.graph.spec_events(
                    self.id,
                    Direction::IN,
                    window_meet_start(self.t_start, t_start),
                    window_meet_end(self.t_end, t_end),
                ),
            ),
    {
        let ns = if self.t_start >= t_start {
            self.t_start
        } else {
            t_start
        };
        let ne = if self.t_end <= t_end {
            self.t_end
        } else {
            t_end
        };
        self.graph.edges(self.id, Direction::IN, ns, ne)
    }

    /// As `out_edges`, over the intersection with a further window.
    pub fn out_edges_window(&self, t_start: i64, t_end: i64) -> (r: Vec<(i64, Triplet)>)
        requires
            self.wf(),
        ensures
            r@ == crate::graph::edge_only(
                self.graph.spec_events(
                    self.id,
                    Direction::OUT,
                    window_meet_start(self.t_start, t_start),
                    window_meet_end(self.t_end, t_end),
                ),
            ),
    {
        let ns = if self.t_start >= t_start {
            self.t_start
        } else {
            t_start
        };
        let ne = if self.t_end <= t_end {
            self.t_end
        } else {
            t_end
        };
        self.graph.edges(self.id, Direction::OUT, ns, ne)
    }

    /// The distinct neighbour ids over both directions, first-seen order.
    pub fn neighbours_ids(&self) -> (r: Vec<u64>)
        requires
            self.wf(),
        ensures
            r@ == self.graph.spec_neighbours(self.id, Direction::BOTH, self.t_start, self.t_end),
    {
        self.graph.neighbours(self.id, Direction::BOTH, self.t_start, self.t_end)
    }

    /// The distinct in-neighbour ids, first-seen order.
    pub fn in_neighbours_ids(&self) -> (r: Vec<u64>)
        requires
            self.wf(),
        ensures
            r@ == self.graph.spec_neighbours(self.id, Direction::IN, self.t_start, self.t_end),
    {
        self.graph.neighbours(self.id, Direction::IN, self.t_start, self.t_end)
    }

    /// The distinct out-neighbour ids, first-seen order.
    pub fn out_neighbours_ids(&self) -> (r: Vec<u64>)
        requires
            self.wf(),
        ensures
            r@ == self.graph.spec_neighbours(self.id, Direction::OUT, self.t_start, self.t_end),
    {
        self.graph.neighbours(self.id, Direction::OUT, self.t_start, self.t_end)
    }

    /// A symbolic path starting at this vertex over both directions.
    pub fn neighbours(&self) -> (r: crate::path::PathFromVertex<'a>)
        ensures
            r.graph == self.graph,
            r.t_start == self.t_start,
            r.t_end == self.t_end,
            r.start_at == self.id,
            r.operations@ == seq![crate::path::Operations::Neighbours],
    {
        crate::path::PathFromVertex::one(
            self.graph,
            self.t_start,
            self.t_end,
            self.id,
            crate::path::Operations::Neighbours,
        )
    }

    /// A symbolic path starting at this vertex over the in-direction.
    pub fn in_neighbours(&self) -> (r: crate::path::PathFromVertex<'a>)
        ensures
            r.graph == self.graph,
            r.t_start == self.t_start,
            r.t_end == self.t_end,
            r.start_at == self.id,
            r.operations@ == seq![crate::path::Operations::InNeighbours],
    {
        crate::path::PathFromVertex::one(
            self.graph,
            self.t_start,
            self.t_end,
            self.id,
            crate::path::Operations::InNeighbours,
        )
    }

    /// A symbolic path starting at this vertex over the out-direction.
    pub fn out_neighbours(&self) -> (r: crate::path::PathFromVertex<'a>)
        ensures
            r.graph == self.graph,
            r.t_start == self.t_start,
            r.t_end == self.t_end,
            r.start_at == self.id,
            r.operations@ == seq![crate::path::Operations::OutNeighbours],
    {
        crate::path::PathFromVertex::one(
            self.graph,
            self.t_start,
            self.t_end,
            self.id,
            crate::path::Operations::OutNeighbours,
        )
    }

    /// Whether this vertex has a temporal property of this name, or, with
    /// `include_static`, a static one.
    pub fn has_property(&self, name: &String, include_static: bool) -> (r: bool)
        requires
            self.wf(),
        ensures
            r == (self.graph.spec_vertex_has_temporal(self.id, name@) || (include_static
                && self.graph.spec_vertex_static(self.id, name@) is Some)),
    {
        self.graph.has_property(self.id, name, include_static)
    }

    /// The latest temporal value, falling back to the static value when
    /// `include_static` is set.
    pub fn property(&self, name: &String, include_static: bool) -> (r: Option<Prop>)
        requires
            self.wf(),
        ensures
            r == if tc_latest(self.graph.spec_vertex_history(self.id, name@), i64::MAX) is Some {
                tc_latest(self.graph.spec_vertex_history(self.id, name@), i64::MAX)
            } else if include_static {
                self.graph.spec_vertex_static(self.id, name@)
            } else {
                None
            },
    {
        self.graph.property(self.id, name, include_static)
    }

    /// The property's history inside the view's window, ascending by
    /// time.
    pub fn property_history(&self, name: &String) -> (r: Vec<(i64, Prop)>)
        requires
            self.wf(),
        ensures
            r@ == tc_window(
                self.graph.spec_vertex_history(self.id, name@),
                self.t_start,
                self.t_end,
            ),
    {
        self.graph.property_history(self.id, name, self.t_start, self.t_end)
    }

    /// The vertex's property names: temporal first, then (with
    /// `include_static`) static ones.
    pub fn property_names(&self, include_static: bool) -> (r: Vec<String>)
        requires
            self.wf(),
        ensures
            !self.graph.spec_known(self.id) ==> r@.len() == 0,
            self.graph.spec_known(self.id) ==> {
                let tv = self.graph.vertex_props@[self.graph.spec_lid(self.id)].temporal_view();
                let sv = self.graph.vertex_props@[self.graph.spec_lid(self.id)].static_view();
                &&& r@.len() == tv.len() + if include_static {
                    sv.len()
                } else {
                    0
                }
                &&& (forall|i: int| 0 <= i < tv.len() ==> (#[trigger] r@[i])@ == tv[i].0@)
                &&& (include_static ==> forall|j: int|
                    0 <= j < sv.len() ==> (#[trigger] r@[tv.len() + j])@ == sv[j].0@)
            },
    {
        self.graph.property_names(self.id, include_static)
    }

    /// The vertex's current properties: exactly every temporal name with
    /// its latest value, then (with `include_static`) exactly every
    /// static-only name with its static value, in slot order.
    pub fn properties(&self, include_static: bool) -> (r: Vec<(String, Prop)>)
        requires
            self.wf(),
        ensures
            !self.graph.spec_known(self.id) ==> r@.len() == 0,
            self.graph.spec_known(self.id) ==> {
                let tv = self.graph.vertex_props@[self.graph.spec_lid(self.id)].temporal_view();
                let sv = self.graph.vertex_props@[self.graph.spec_lid(self.id)].static_view();
                let combined = crate::props::latest_pairs(tv, tv.len() as int) + if include_static {
                    crate::props::static_only_pairs(tv, sv, sv.len() as int)
                } else {
                    Seq::empty()
                };
                &&& r@.len() == combined.len()
                &&& (forall|i: int|
                    0 <= i < r@.len() ==> (#[trigger] r@[i]).0@ == combined[i].0 && r@[i].1
                        == combined[i].1)
            },
    {
        self.graph.properties(self.id, include_static)
    }

    /// Every temporal property with its history inside the view's window.
    pub fn property_histories(&self) -> (r: Vec<(String, Vec<(i64, Prop)>)>)
        requires
            self.wf(),
        ensures
            self.graph.spec_known(self.id) ==> {
                let tv = self.graph.vertex_props@[self.graph.spec_lid(self.id)].temporal_view();
                &&& r@.len() == tv.len()
                &&& (forall|i: int|
                    0 <= i < tv.len() ==> (#[trigger] r@[i]).0@ == tv[i].0@ && r@[i].1@
                        == tc_window(tv[i].1@, self.t_start, self.t_end))
            },
    {
        self.graph.property_histories(self.id, self.t_start, self.t_end)
    }

    /// Whether a static property of this name exists.
    pub fn has_static_property(&self, name: &String) -> (r: bool)
        requires
            self.wf(),
        ensures
            r == (self.graph.spec_vertex_static(self.id, name@) is Some),
    {
        self.graph.has_static_property(self.id, name)
    }

    /// The static property value, if any.
    pub fn static_property(&self, name: &String) -> (r: Option<Prop>)
        requires
            self.wf(),
        ensures
            r == self.graph.spec_vertex_static(self.id, name@),
    {
        self.graph.static_property(self.id, name)
    }
}

impl<'a> WindowedEdge<'a> {
    pub open spec fn wf(self) -> bool {
        self.graph.wf()
    }

    /// The source vertex id.
    pub fn src(&self) -> (r: u64)
        ensures
            r == self.src,
    {
        self.src
    }

    /// The destination vertex id.
    pub fn dst(&self) -> (r: u64)
        ensures
            r == self.dst,
    {
        self.dst
    }

    /// The time of the pair's first edge event inside the view's window.
    pub fn time(&self) -> (r: Option<i64>)
        ensures
            r == self.time,
    {
        self.time
    }

    /// The pair's shared property-store key, if the pair was ever
    /// written through `add_edge` or an edge-property write.
    pub fn id(&self) -> (r: Option<usize>)
        requires
            self.wf(),
        ensures
            match r {
                Some(k) => PagedGraph::spec_pair_key(self.graph.edge_pairs@, self.src, self.dst)
                    == Some(k as int),
                None => PagedGraph::spec_pair_key(self.graph.edge_pairs@, self.src, self.dst)
                    is None,
            },
    {
        self.graph.edge_key(self.src, self.dst)
    }

    /// Whether the pair has a temporal edge property of this name, or,
    /// with `include_static`, a static one.
    pub fn has_property(&self, name: &String, include_static: bool) -> (r: bool)
        requires
            self.wf(),
        ensures
            r == (self.graph.spec_edge_has_temporal(self.src, self.dst, name@) || (include_static
                && self.graph.spec_edge_static(self.src, self.dst, name@) is Some)),
    {
        self.graph.has_edge_property(self.src, self.dst, name, include_static)
    }

    /// Whether a static edge property of this name exists.
    pub fn has_static_property(&self, name: &String) -> (r: bool)
        requires
            self.wf(),
        ensures
            r == (self.graph.spec_edge_static(self.src, self.dst, name@) is Some),
    {
        match self.graph.edge_static_property(self.src, self.dst, name) {
            Some(_) => true,
            None => false,
        }
    }

    /// The edge property's history inside the view's window.
    pub fn property_history(&self, name: &String) -> (r: Vec<(i64, Prop)>)
        requires
            self.wf(),
        ensures
            r@ == tc_window(
                self.graph.spec_edge_history(self.src, self.dst, name@),
                self.t_start,
                self.t_end,
            ),
    {
        self.graph.edge_property_history(self.src, self.dst, name, self.t_start, self.t_end)
    }

    /// The latest temporal edge property value, falling back to the
    /// static value when `include_static` is set.
    pub fn property(&self, name: &String, include_static: bool) -> (r: Option<Prop>)
        requires
            self.wf(),
        ensures
            r == if tc_latest(self.graph.spec_edge_history(self.src, self.dst, name@), i64::MAX)
                is Some {
                tc_latest(self.graph.spec_edge_history(self.src, self.dst, name@), i64::MAX)
            } else if include_static {
                self.graph.spec_edge_static(self.src, self.dst, name@)
            } else {
                None
            },
    {
        self.graph.edge_property(self.src, self.dst, name, include_static)
    }

    /// The static edge property value, if any.
    pub fn static_property(&self, name: &String) -> (r: Option<Prop>)
        requires
            self.wf(),
        ensures
            r == self.graph.spec_edge_static(self.src, self.dst, name@),
    {
        self.graph.edge_static_property(self.src, self.dst, name)
    }

    /// The pair's property names: temporal first, then (with
    /// `include_static`) static ones.
    pub fn property_names(&self, include_static: bool) -> (r: Vec<String>)
        requires
            self.wf(),
        ensures
            PagedGraph::spec_pair_key(self.graph.edge_pairs@, self.src, self.dst) is None
                ==> r@.len() == 0,
            PagedGraph::spec_pair_key(self.graph.edge_pairs@, self.src, self.dst) is Some ==> {
                let k = PagedGraph::spec_pair_key(self.graph.edge_pairs@, self.src, self.dst)->0;
                let tv = self.graph.edge_props@[k].temporal_view();
                let sv = self.graph.edge_props@[k].static_view();
                &&& r@.len() == tv.len() + if include_static {
                    sv.len()
                } else {
                    0
                }
                &&& (forall|i: int| 0 <= i < tv.len() ==> (#[trigger] r@[i])@ == tv[i].0@)
                &&& (include_static ==> forall|j: int|
                    0 <= j < sv.len() ==> (#[trigger] r@[tv.len() + j])@ == sv[j].0@)
            },
    {
        self.graph.edge_property_names(self.src, self.dst, include_static)
    }

    /// The pair's current properties: exactly every temporal name with
    /// its latest value, then (with `include_static`) exactly every
    /// static-only name with its static value, in slot order.
    pub fn properties(&self, include_static: bool) -> (r: Vec<(String, Prop)>)
        requires
            self.wf(),
        ensures
            PagedGraph::spec_pair_key(self.graph.edge_pairs@, self.src, self.dst) is None
                ==> r@.len() == 0,
            PagedGraph::spec_pair_key(self.graph.edge_pairs@, self.src, self.dst) is Some ==> {
                let k = PagedGraph::spec_pair_key(self.graph.edge_pairs@, self.src, self.dst)->0;
                let tv = self.graph.edge_props@[k].temporal_view();
                let sv = self.graph.edge_props@[k].static_view();
                let combined = crate::props::latest_pairs(tv, tv.len() as int) + if include_static {
                    crate::props::static_only_pairs(tv, sv, sv.len() as int)
                } else {
                    Seq::empty()
                };
                &&& r@.len() == combined.len()
                &&& (forall|i: int|
                    0 <= i < r@.len() ==> (#[trigger] r@[i]).0@ == combined[i].0 && r@[i].1
                        == combined[i].1)
            },
    {
        self.graph.edge_properties(self.src, self.dst, include_static)
    }

    /// Every temporal edge property with its history inside the view's
    /// window.
    pub fn property_histories(&self) -> (r: Vec<(String, Vec<(i64, Prop)>)>)
        requires
            self.wf(),
        ensures
            PagedGraph::spec_pair_key(self.graph.edge_pairs@, self.src, self.dst) is None
                ==> r@.len() == 0,
            PagedGraph::spec_pair_key(self.graph.edge_pairs@, self.src, self.dst) is Some ==> {
                let k = PagedGraph::spec_pair_key(self.graph.edge_pairs@, self.src, self.dst)->0;
                let tv = self.graph.edge_props@[k].temporal_view();
                &&& r@.len() == tv.len()
                &&& (forall|i: int|
                    0 <= i < tv.len() ==> (#[trigger] r@[i]).0@ == tv[i].0@ && r@[i].1@
                        == tc_window(tv[i].1@, self.t_start, self.t_end))
            },
    {
        self.graph.edge_property_histories(self.src, self.dst, self.t_start, self.t_end)
    }
}

/// A rolling window: graph views at `[t, t + window_size)` for
/// `t = t_start, t_start + step, ...`, ending once `t >= t_end`.
pub struct GraphWindowSet<'a> {
    pub graph: &'a PagedGraph,
    pub t_start: i64,
    pub t_end: i64,
    pub step: i64,
    pub window_size: i64,
    pub cursor: i64,
    pub exhausted: bool,
}

impl<'a> GraphWindowSet<'a> {
    /// A rolling-window iterator over `graph`.
    pub fn new(graph: &'a PagedGraph, t_start: i64, t_end: i64, step: i64, window_size: i64) -> (r:
        Self)
        requires
            step >= 1,
            window_size >= 0,
        ensures
            r.graph == graph,
            r.t_start == t_start,
            r.t_end == t_end,
            r.step == step,
            r.window_size == window_size,
            r.cursor == t_start,
            !r.exhausted,
    {
        GraphWindowSet { graph, t_start, t_end, step, window_size, cursor: t_start, exhausted: false }
    }

    /// The next window `[cursor, cursor + size)` (upper end saturating at
    /// the sentinel), or `None` once the cursor has reached `t_end`.
    pub fn next_window(&mut self) -> (r: Option<WindowedGraph<'a>>)
        requires
            old(self).step >= 1,
            old(self).window_size >= 0,
        ensures
            final(self).graph == old(self).graph,
            final(self).t_end == old(self).t_end,
            final(self).step == old(self).step,
            final(self).window_size == old(self).window_size,
            match r {
                None => (old(self).exhausted || old(self).cursor >= old(self).t_end) && *final(self)
                    == *old(self),
                Some(wg) => {
                    &&& !old(self).exhausted
                    &&& old(self).cursor < old(self).t_end
                    &&& wg.graph == old(self).graph
                    &&& wg.t_start == old(self).cursor
                    &&& wg.t_end as int == if old(self).cursor + old(self).window_size
                        <= i64::MAX {
                        old(self).cursor + old(self).window_size
                    } else {
                        i64::MAX as int
                    }
                    &&& final(self).exhausted == (old(self).cursor + old(self).step > i64::MAX)
                    &&& !final(self).exhausted ==> final(self).cursor == old(self).cursor + old(
                        self,
                    ).step
                },
            },
    {
        if self.exhausted || self.cursor >= self.t_end {
            return None;
        }
        let upper = if self.cursor <= i64::MAX - self.window_size {
            self.cursor + self.window_size
        } else {
            i64::MAX
        };
        let wg = WindowedGraph { graph: self.graph, t_start: self.cursor, t_end: upper };
        if self.cursor <= i64::MAX - self.step {
            self.cursor = self.cursor + self.step;
        } else {
            self.exhausted = true;
        }
        Some(wg)
    }
}

} // verus!
