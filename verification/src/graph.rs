//! The temporal graph core: the vertex table, per-vertex adjacency
//! chains routed through the page manager, the temporal index, and the
//! property stores.
//!
//! The model of the store is the per-vertex event log: `out_events_of`
//! and `in_events_of` give, for a global id, the timestamped triplets of
//! its out- and in-adjacency chains in insertion order. Every write
//! appends one event; every read is a pure function of these logs.

use vstd::prelude::*;

use std::collections::HashMap;

use crate::page::{Triplet, PAGE_SIZE};
use crate::prop::Direction;
use crate::pager::{
    chain_seq, chain_tail, lemma_chain_append, lemma_chain_frame, lemma_chain_link,
    lemma_chain_tail_props, pages_wf, Location, PageManagerError, VecPageManager,
};
use crate::prop::Prop;
use crate::props::PropertyStore;
use crate::seqs::{dedup, in_window};
use crate::tcell::{tc_has_key, tc_window};
use crate::tindex::{ti_locs, TimeIndex};

verus! {

broadcast use vstd::std_specs::hash::group_hash_axioms;

/// The store's error kind. `PMError` surfaces a corrupted page
/// location; `StaticPropertyRewrite` reports an attempt to overwrite a
/// write-once static property.
#[derive(Debug)]
pub enum GraphError {
    PMError(PageManagerError),
    StaticPropertyRewrite,
}

/// The paged temporal graph store.
#[derive(Debug)]
pub struct PagedGraph {
    /// The page pool all adjacency chains live in.
    pub page_manager: VecPageManager,
    /// Timestamp to the page entries written at it.
    pub temporal_index: TimeIndex,
    /// Global vertex id to dense logical id.
    pub global_to_logical_map: HashMap<u64, usize>,
    /// Logical id back to global id (the vertex table).
    pub logical_to_global: Vec<u64>,
    /// Head page of each vertex's out-adjacency chain.
    pub adj_list_page_pointers: Vec<Option<usize>>,
    /// Tail page of each vertex's out-adjacency chain.
    pub adj_list_tails: Vec<Option<usize>>,
    /// Head page of each vertex's in-adjacency chain.
    pub in_adj_page_pointers: Vec<Option<usize>>,
    /// Tail page of each vertex's in-adjacency chain.
    pub in_adj_tails: Vec<Option<usize>>,
    /// Smallest timestamp observed for each vertex.
    pub first_seen: Vec<i64>,
    /// Per-vertex property stores, indexed by logical id.
    pub vertex_props: Vec<PropertyStore>,
    /// Endpoint pair of each edge key; edge properties are shared by all
    /// parallel edges between a pair.
    pub edge_pairs: Vec<(u64, u64)>,
    /// Per-pair property stores, indexed by edge key.
    pub edge_props: Vec<PropertyStore>,
}

impl PagedGraph {
    /// Number of vertices ever seen (logical ids are dense and never
    /// reused).
    pub open spec fn n_vertices(self) -> nat {
        self.logical_to_global@.len()
    }

    /// Whether a global id has been seen.
    pub open spec fn spec_known(self, gid: u64) -> bool {
        self.global_to_logical_map@.contains_key(gid)
    }

    /// The logical id of a known global id.
    pub open spec fn spec_lid(self, gid: u64) -> int {
        self.global_to_logical_map@[gid] as int
    }

    /// The event log of the out-chain of logical id `l`.
    pub open spec fn out_events(self, l: int) -> Seq<(i64, Triplet)> {
        match self.adj_list_page_pointers@[l] {
            None => Seq::empty(),
            Some(h) => chain_seq(self.page_manager.pages@, h as int),
        }
    }

    /// The event log of the in-chain of logical id `l`.
    pub open spec fn in_events(self, l: int) -> Seq<(i64, Triplet)> {
        match self.in_adj_page_pointers@[l] {
            None => Seq::empty(),
            Some(h) => chain_seq(self.page_manager.pages@, h as int),
        }
    }

    /// The out-chain event log of a global id (empty when unknown).
    pub open spec fn out_events_of(self, gid: u64) -> Seq<(i64, Triplet)> {
        if self.spec_known(gid) {
            self.out_events(self.spec_lid(gid))
        } else {
            Seq::empty()
        }
    }

    /// The in-chain event log of a global id (empty when unknown).
    pub open spec fn in_events_of(self, gid: u64) -> Seq<(i64, Triplet)> {
        if self.spec_known(gid) {
            self.in_events(self.spec_lid(gid))
        } else {
            Seq::empty()
        }
    }

    /// Everything recorded about a global id: its out-log then its
    /// in-log.
    pub open spec fn activity_of(self, gid: u64) -> Seq<(i64, Triplet)> {
        self.out_events_of(gid) + self.in_events_of(gid)
    }

    /// Head and tail table entries describe real chains of the right
    /// owner, per direction.
    pub open spec fn chains_wf(
        heads: Seq<Option<usize>>,
        tails: Seq<Option<usize>>,
        pages: Seq<crate::page::TemporalAdjacencySetPage>,
        out: bool,
    ) -> bool {
        forall|l: int|
            0 <= l < heads.len() ==> match #[trigger] heads[l] {
                Some(h) => {
                    &&& h < pages.len()
                    &&& pages[h as int].owner == l
                    &&& pages[h as int].out_chain == out
                    &&& tails[l] == Some(chain_tail(pages, h as int) as usize)
                },
                None => tails[l] is None,
            }
    }

    /// The store's invariant.
    pub open spec fn wf(self) -> bool {
        let pages = self.page_manager.pages@;
        let n = self.n_vertices() as int;
        &&& self.adj_list_page_pointers@.len() == n
        &&& self.adj_list_tails@.len() == n
        &&& self.in_adj_page_pointers@.len() == n
        &&& self.in_adj_tails@.len() == n
        &&& self.first_seen@.len() == n
        &&& self.vertex_props@.len() == n
        &&& self.edge_props@.len() == self.edge_pairs@.len()
        &&& pages_wf(pages)
        // pages belong to known vertices
        &&& (forall|p: int| 0 <= p < pages.len() ==> (#[trigger] pages[p]).owner < n)
        // global id <-> logical id bijection
        &&& (forall|g: u64|
            #[trigger] self.global_to_logical_map@.contains_key(g) ==> {
                &&& self.global_to_logical_map@[g] < n
                &&& self.logical_to_global@[self.global_to_logical_map@[g] as int] == g
            })
        &&& (forall|l: int|
            0 <= l < n ==> {
                &&& self.global_to_logical_map@.contains_key(#[trigger] self.logical_to_global@[l])
                &&& self.global_to_logical_map@[self.logical_to_global@[l]] == l
            })
        // adjacency chain tables
        &&& Self::chains_wf(self.adj_list_page_pointers@, self.adj_list_tails@, pages, true)
        &&& Self::chains_wf(self.in_adj_page_pointers@, self.in_adj_tails@, pages, false)
        // temporal index: sorted, complete and sound
        &&& self.temporal_index.wf()
        &&& (forall|p: int, k: int|
            0 <= p < pages.len() && 0 <= k < pages[p].entries@.len() ==> ti_locs(
                self.temporal_index@,
                (#[trigger] pages[p].entries@[k]).0,
            ).contains(Location { page: p as usize, slot: k as usize }))
        &&& (forall|t: i64, j: int|
            0 <= j < ti_locs(self.temporal_index@, t).len() ==> {
                let loc = #[trigger] ti_locs(self.temporal_index@, t)[j];
                &&& loc.page < pages.len()
                &&& loc.slot < pages[loc.page as int].entries@.len()
                &&& pages[loc.page as int].entries@[loc.slot as int].0 == t
            })
        // every entry of a vertex's pages is at or after its first-seen time
        &&& (forall|p: int, k: int|
            0 <= p < pages.len() && 0 <= k < pages[p].entries@.len() ==> (
            #[trigger] pages[p].entries@[k]).0 >= self.first_seen@[pages[p].owner as int])
        // property stores
        &&& (forall|l: int| 0 <= l < n ==> (#[trigger] self.vertex_props@[l]).wf())
        &&& (forall|e: int|
            0 <= e < self.edge_props@.len() ==> (#[trigger] self.edge_props@[e]).wf())
        // one property store per endpoint pair
        &&& (forall|a: int, b: int|
            0 <= a < b < self.edge_pairs@.len() ==> self.edge_pairs@[a] != self.edge_pairs@[b])
    }

    /// An empty store over a vector-backed page pool.
    pub fn with_vec_page_manager() -> (r: Self)
        ensures
            r.wf(),
            r.n_vertices() == 0,
            r.page_manager.pages@.len() == 0,
            r.temporal_index@.len() == 0,
            r.edge_pairs@.len() == 0,
            forall|g: u64| !r.spec_known(g),
    {
        let r = PagedGraph {
            page_manager: VecPageManager::new(),
            temporal_index: TimeIndex::new(),
            global_to_logical_map: HashMap::new(),
            logical_to_global: Vec::new(),
            adj_list_page_pointers: Vec::new(),
            adj_list_tails: Vec::new(),
            in_adj_page_pointers: Vec::new(),
            in_adj_tails: Vec::new(),
            first_seen: Vec::new(),
            vertex_props: Vec::new(),
            edge_pairs: Vec::new(),
            edge_props: Vec::new(),
        };
        proof {
            assert(r.global_to_logical_map@ =~= Map::<u64, usize>::empty());
        }
        r
    }

    /// An empty store.
    pub fn new() -> (r: Self)
        ensures
            r.wf(),
            r.n_vertices() == 0,
            r.temporal_index@.len() == 0,
            forall|g: u64| !r.spec_known(g),
    {
        Self::with_vec_page_manager()
    }
}

/// Overwrite one element of a vector.
fn vec_set<T>(v: &mut Vec<T>, i: usize, x: T)
    requires
        i < old(v)@.len(),
    ensures
        final(v)@ == old(v)@.update(i as int, x),
{
    v.remove(i);
    v.insert(i, x);
    proof {
        assert(v@ =~= old(v)@.update(i as int, x));
    }
}

impl PagedGraph {
    /// Resolve a global id to its logical id, allocating a fresh vertex
    /// on first sight with `t` as its first-seen time.
    fn ensure_vertex(&mut self, gid: u64, t: i64) -> (l: usize)
        requires
            old(self).wf(),
        ensures
            final(self).wf(),
            final(self).spec_known(gid),
            l == final(self).spec_lid(gid),
            l < final(self).n_vertices(),
            forall|g: u64| final(self).spec_known(g) == (old(self).spec_known(g) || g == gid),
            forall|g: u64|
                old(self).spec_known(g) ==> final(self).spec_lid(g) == old(self).spec_lid(g),
            forall|g: u64| #[trigger] final(self).out_events_of(g) == old(self).out_events_of(g),
            forall|g: u64| #[trigger] final(self).in_events_of(g) == old(self).in_events_of(g),
            final(self).page_manager.pages@ == old(self).page_manager.pages@,
            final(self).temporal_index@ == old(self).temporal_index@,
            final(self).edge_pairs@ == old(self).edge_pairs@,
            final(self).edge_props@ == old(self).edge_props@,
            old(self).spec_known(gid) ==> *final(self) == *old(self),
            !old(self).spec_known(gid) ==> {
                &&& final(self).n_vertices() == old(self).n_vertices() + 1
                &&& l == old(self).n_vertices()
                &&& final(self).logical_to_global@ == old(self).logical_to_global@.push(gid)
                &&& final(self).vertex_props@.len() == old(self).vertex_props@.len() + 1
                &&& (forall|k: int|
                    0 <= k < old(self).n_vertices() ==> final(self).vertex_props@[k] == #[trigger] old(self).vertex_props@[k])
                &&& final(self).vertex_props@[l as int].temporal_view() == Seq::<
                    (String, crate::tcell::TimeCell),
                >::empty()
                &&& final(self).vertex_props@[l as int].static_view() == Seq::<
                    (String, crate::prop::Prop),
                >::empty()
            },
    {
        let found = match self.global_to_logical_map.get(&gid) {
            Some(l) => Some(*l),
            None => None,
        };
        match found {
            Some(l) => {
                proof {
                    assert(old(self).out_events_of(gid) == self.out_events_of(gid));
                }
                l
            },
            None => {
                let l = self.logical_to_global.len();
                self.logical_to_global.push(gid);
                self.global_to_logical_map.insert(gid, l);
                self.adj_list_page_pointers.push(None);
                self.adj_list_tails.push(None);
                self.in_adj_page_pointers.push(None);
                self.in_adj_tails.push(None);
                self.first_seen.push(t);
                self.vertex_props.push(PropertyStore::new());
                proof {
                    let o = *old(self);
                    let f = *self;
                    let n0 = o.n_vertices() as int;
                    assert(f.global_to_logical_map@ == o.global_to_logical_map@.insert(
                        gid,
                        l as usize,
                    ));
                    assert forall|g: u64| #[trigger] f.global_to_logical_map@.contains_key(g) implies {
                        &&& f.global_to_logical_map@[g] < f.n_vertices()
                        &&& f.logical_to_global@[f.global_to_logical_map@[g] as int] == g
                    } by {
                        if g == gid {
                            assert(f.logical_to_global@[n0] == gid);
                        } else {
                            assert(o.global_to_logical_map@.contains_key(g));
                            assert(f.logical_to_global@[o.global_to_logical_map@[g] as int]
                                == o.logical_to_global@[o.global_to_logical_map@[g] as int]);
                        }
                    }
                    assert forall|k: int| 0 <= k < f.n_vertices() implies {
                        &&& f.global_to_logical_map@.contains_key(
                            #[trigger] f.logical_to_global@[k],
                        )
                        &&& f.global_to_logical_map@[f.logical_to_global@[k]] == k
                    } by {
                        if k < n0 {
                            assert(f.logical_to_global@[k] == o.logical_to_global@[k]);
                            assert(o.global_to_logical_map@.contains_key(o.logical_to_global@[k]));
                            assert(o.logical_to_global@[k] != gid) by {
                                if o.logical_to_global@[k] == gid {
                                    assert(o.global_to_logical_map@.contains_key(gid));
                                }
                            }
                        } else {
                            assert(f.logical_to_global@[k] == gid);
                        }
                    }
                    assert(Self::chains_wf(
                        f.adj_list_page_pointers@,
                        f.adj_list_tails@,
                        f.page_manager.pages@,
                        true,
                    )) by {
                        assert forall|k: int|
                            0 <= k < f.adj_list_page_pointers@.len() implies match #[trigger] f.adj_list_page_pointers@[k] {
                            Some(h) => {
                                &&& h < f.page_manager.pages@.len()
                                &&& f.page_manager.pages@[h as int].owner == k
                                &&& f.page_manager.pages@[h as int].out_chain == true
                                &&& f.adj_list_tails@[k] == Some(
                                    chain_tail(f.page_manager.pages@, h as int) as usize,
                                )
                            },
                            None => f.adj_list_tails@[k] is None,
                        } by {
                            if k < n0 {
                                assert(f.adj_list_page_pointers@[k]
                                    == o.adj_list_page_pointers@[k]);
                                assert(f.adj_list_tails@[k] == o.adj_list_tails@[k]);
                            } else {
                                assert(f.adj_list_page_pointers@[k] is None);
                                assert(f.adj_list_tails@[k] is None);
                            }
                        }
                    }
                    assert(Self::chains_wf(
                        f.in_adj_page_pointers@,
                        f.in_adj_tails@,
                        f.page_manager.pages@,
                        false,
                    )) by {
                        assert forall|k: int|
                            0 <= k < f.in_adj_page_pointers@.len() implies match #[trigger] f.in_adj_page_pointers@[k] {
                            Some(h) => {
                                &&& h < f.page_manager.pages@.len()
                                &&& f.page_manager.pages@[h as int].owner == k
                                &&& f.page_manager.pages@[h as int].out_chain == false
                                &&& f.in_adj_tails@[k] == Some(
                                    chain_tail(f.page_manager.pages@, h as int) as usize,
                                )
                            },
                            None => f.in_adj_tails@[k] is None,
                        } by {
                            if k < n0 {
                                assert(f.in_adj_page_pointers@[k] == o.in_adj_page_pointers@[k]);
                                assert(f.in_adj_tails@[k] == o.in_adj_tails@[k]);
                            } else {
                                assert(f.in_adj_page_pointers@[k] is None);
                                assert(f.in_adj_tails@[k] is None);
                            }
                        }
                    }
                    assert forall|p: int, k: int|
                        0 <= p < f.page_manager.pages@.len() && 0 <= k
                            < f.page_manager.pages@[p].entries@.len() implies (
                    #[trigger] f.page_manager.pages@[p].entries@[k]).0
                        >= f.first_seen@[f.page_manager.pages@[p].owner as int] by {
                        assert(f.page_manager.pages@[p].owner < n0);
                        assert(f.first_seen@[f.page_manager.pages@[p].owner as int]
                            == o.first_seen@[o.page_manager.pages@[p].owner as int]);
                    }
                    assert forall|k: int| 0 <= k < f.n_vertices() implies (
                    #[trigger] f.vertex_props@[k]).wf() by {
                        if k < n0 {
                            assert(f.vertex_props@[k] == o.vertex_props@[k]);
                        }
                    }
                    assert forall|g: u64| #[trigger] f.out_events_of(g) == o.out_events_of(
                        g,
                    ) by {
                        if o.spec_known(g) {
                            assert(f.adj_list_page_pointers@[o.spec_lid(g)]
                                == o.adj_list_page_pointers@[o.spec_lid(g)]);
                        } else if g == gid {
                            assert(f.adj_list_page_pointers@[n0] is None);
                        }
                    }
                    assert forall|g: u64| #[trigger] f.in_events_of(g) == o.in_events_of(g) by {
                        if o.spec_known(g) {
                            assert(f.in_adj_page_pointers@[o.spec_lid(g)]
                                == o.in_adj_page_pointers@[o.spec_lid(g)]);
                        } else if g == gid {
                            assert(f.in_adj_page_pointers@[n0] is None);
                        }
                    }
                }
                l
            },
        }
    }
}

impl PagedGraph {
    /// Append one timestamped triplet to a vertex's out- or in-chain:
    /// the one place every write funnels through. Finds (or allocates
    /// and links) a page with room, appends the entry, records its
    /// location in the temporal index, and widens the vertex's
    /// first-seen time. Exactly one event log grows, by exactly this
    /// event.
    #[verifier::rlimit(100)]
    #[verifier::spinoff_prover]
    fn append_event(&mut self, l: usize, t: i64, triplet: Triplet, out: bool)
        requires
            old(self).wf(),
            l < old(self).n_vertices(),
        ensures
            final(self).wf(),
            final(self).n_vertices() == old(self).n_vertices(),
            final(self).logical_to_global@ == old(self).logical_to_global@,
            final(self).global_to_logical_map@ == old(self).global_to_logical_map@,
            final(self).vertex_props@ == old(self).vertex_props@,
            final(self).edge_pairs@ == old(self).edge_pairs@,
            final(self).edge_props@ == old(self).edge_props@,
            out ==> final(self).out_events(l as int) == old(self).out_events(l as int).push(
                (t, triplet),
            ),
            out ==> final(self).in_events(l as int) == old(self).in_events(l as int),
            !out ==> final(self).in_events(l as int) == old(self).in_events(l as int).push(
                (t, triplet),
            ),
            !out ==> final(self).out_events(l as int) == old(self).out_events(l as int),
            forall|k: int|
                0 <= k < old(self).n_vertices() && k != l ==> final(self).out_events(k)
                    == #[trigger] old(self).out_events(k),
            forall|k: int|
                0 <= k < old(self).n_vertices() && k != l ==> final(self).in_events(k)
                    == #[trigger] old(self).in_events(k),
            forall|x: i64|
                #[trigger] tc_has_key(final(self).temporal_index@, x) == (tc_has_key(
                    old(self).temporal_index@,
                    x,
                ) || x == t),
            final(self).temporal_index@.len() > 0,
            forall|x: i64|
                x != t ==> ti_locs(final(self).temporal_index@, x) == ti_locs(
                    old(self).temporal_index@,
                    x,
                ),
            ti_locs(final(self).temporal_index@, t).len() == ti_locs(
                old(self).temporal_index@,
                t,
            ).len() + 1,
            ti_locs(final(self).temporal_index@, t).subrange(
                0,
                ti_locs(old(self).temporal_index@, t).len() as int,
            ) == ti_locs(old(self).temporal_index@, t),
    {
        let ghost o = *old(self);
        let np0 = self.page_manager.num_pages();
        let ghost pages0 = self.page_manager.pages@;
        let (head_opt, tail_opt) = if out {
            (self.adj_list_page_pointers[l], self.adj_list_tails[l])
        } else {
            (self.in_adj_page_pointers[l], self.in_adj_tails[l])
        };
        proof {
            assert(pages0.len() == np0);
            if head_opt is Some {
                let h = head_opt->0 as int;
                lemma_chain_tail_props(pages0, h);
                let tl = chain_tail(pages0, h);
                assert(tail_opt == Some(tl as usize));
                assert(0 <= tl < pages0.len());
                assert(tl as usize as int == tl);
                assert(pages0[tl].overflow is None);
                assert(pages0[tl].owner == l && pages0[tl].out_chain == out);
            } else {
                assert(tail_opt is None);
            }
        }
        let page_id = match self.page_manager.find_next_free_page(tail_opt, l, out) {
            Ok(p) => p,
            Err(_) => {
                proof {
                    assert(false);
                }
                0
            },
        };
        let np = self.page_manager.num_pages();
        let ghost pages1 = self.page_manager.pages@;
        // the chain's entry log is unchanged so far, and `page_id` is its
        // tail (or a fresh head); every other chain is untouched
        proof {
            assert(pages1.len() == np);
            match head_opt {
                None => {
                    assert(chain_seq(pages1, page_id as int) == Seq::<(i64, Triplet)>::empty());
                    assert(chain_tail(pages1, page_id as int) == page_id as int);
                },
                Some(h) => {
                    let tl = chain_tail(pages0, h as int);
                    assert(tail_opt == Some(tl as usize));
                    if pages0[tl].entries@.len() < PAGE_SIZE {
                        assert(pages1 == pages0);
                        assert(page_id == tl);
                    } else {
                        lemma_chain_link(pages0, pages1, h as int);
                        assert(chain_seq(pages1, h as int) == chain_seq(pages0, h as int));
                        assert(chain_tail(pages1, h as int) == page_id as int);
                    }
                },
            }
        }
        let slot = self.page_manager.append_at(page_id, t, triplet);
        let ghost pages2 = self.page_manager.pages@;
        proof {
            match head_opt {
                None => {
                    lemma_chain_append(pages1, pages2, page_id as int, (t, triplet));
                    assert(chain_seq(pages2, page_id as int) == Seq::<(i64, Triplet)>::empty().push(
                        (t, triplet),
                    ));
                },
                Some(h) => {
                    assert(chain_tail(pages1, h as int) == page_id as int);
                    lemma_chain_append(pages1, pages2, h as int, (t, triplet));
                    assert(chain_seq(pages2, h as int) == chain_seq(pages0, h as int).push(
                        (t, triplet),
                    ));
                    assert(chain_tail(pages2, h as int) == page_id as int);
                },
            }
            // frame: every chain headed at a page of another owner or
            // direction is untouched by both steps
            assert forall|hk: int|
                0 <= hk < pages0.len() && !(pages0[hk].owner == l && pages0[hk].out_chain
                    == out) implies chain_seq(pages2, hk) == chain_seq(pages0, hk) && chain_tail(
                pages2,
                hk,
            ) == chain_tail(pages0, hk) by {
                assert forall|i: int|
                    0 <= i < pages0.len() && pages0[i].owner == pages0[hk].owner
                        && pages0[i].out_chain == pages0[hk].out_chain implies pages2[i]
                    == #[trigger] pages0[i] by {
                    assert(i != page_id as int);
                    if head_opt is Some {
                        let tl = chain_tail(pages0, head_opt->0 as int);
                        if pages0[tl].entries@.len() >= PAGE_SIZE {
                            assert(pages0[tl].owner == l && pages0[tl].out_chain == out);
                            assert(i != tl);
                        }
                    }
                }
                lemma_chain_frame(pages0, pages2, hk);
            }
            // old entries survive both steps unchanged
            assert forall|p: int, k: int|
                0 <= p < pages0.len() && 0 <= k < pages0[p].entries@.len() implies k
                < pages2[p].entries@.len() && #[trigger] pages2[p].entries@[k]
                == pages0[p].entries@[k] by {
                if p == page_id as int {
                    assert(pages2[p].entries@ == pages1[p].entries@.push((t, triplet)));
                }
            }
            // and every entry of the new pool is an old entry or the new one
            assert forall|p: int, k: int|
                0 <= p < pages2.len() && 0 <= k < pages2[p].entries@.len() && !(p == page_id as int
                    && k == slot as int) implies 0 <= p < pages0.len() && k
                < pages0[p].entries@.len() && #[trigger] pages2[p].entries@[k]
                == pages0[p].entries@[k] by {
                if p == page_id as int {
                    assert(pages2[p].entries@ == pages1[p].entries@.push((t, triplet)));
                }
            }
            assert(pages2[page_id as int].entries@[slot as int] == (t, triplet));
        }
        let ghost ti0 = self.temporal_index@;
        self.temporal_index.add(t, Location { page: page_id, slot });
        // head and tail tables
        let head_page = match head_opt {
            Some(h) => h,
            None => page_id,
        };
        if out {
            vec_set(&mut self.adj_list_page_pointers, l, Some(head_page));
            vec_set(&mut self.adj_list_tails, l, Some(page_id));
        } else {
            vec_set(&mut self.in_adj_page_pointers, l, Some(head_page));
            vec_set(&mut self.in_adj_tails, l, Some(page_id));
        }
        // first-seen time
        let fs = self.first_seen[l];
        let nfs = if t < fs {
            t
        } else {
            fs
        };
        vec_set(&mut self.first_seen, l, nfs);
        proof {
            let hd = head_page as int;
            // ownership of the written chain's head and of fresh pages
            assert forall|p: int|
                0 <= p < pages1.len() implies (#[trigger] pages2[p]).owner == pages1[p].owner
                && pages2[p].out_chain == pages1[p].out_chain by {
                if p != page_id as int {
                    assert(pages2[p] == pages1[p]);
                }
            }
            assert forall|p: int|
                0 <= p < pages0.len() implies (#[trigger] pages1[p]).owner == pages0[p].owner
                && pages1[p].out_chain == pages0[p].out_chain by {
                match head_opt {
                    None => {},
                    Some(h) => {
                        let tl = chain_tail(pages0, h as int);
                        if pages0[tl].entries@.len() >= PAGE_SIZE {
                            if p != tl {
                                assert(pages1[p] == pages0[p]);
                            }
                        }
                    },
                }
            }
            assert forall|p: int|
                pages0.len() <= p < pages2.len() implies (#[trigger] pages2[p]).owner == l
                && pages2[p].out_chain == out by {
                assert(p == page_id as int);
            }
            // the written chain's previous log
            assert(chain_seq(pages2, hd) == (if out {
                o.out_events(l as int)
            } else {
                o.in_events(l as int)
            }).push((t, triplet)));
            assert(chain_tail(pages2, hd) == page_id as int);
            assert(pages2[hd].owner == l && pages2[hd].out_chain == out) by {
                match head_opt {
                    Some(h) => {
                        assert(pages0[hd].owner == l && pages0[hd].out_chain == out);
                    },
                    None => {},
                }
            }
            assert(o.temporal_index@ == ti0);
            crate::seqs::lemma_push_prefix(ti_locs(ti0, t), Location { page: page_id, slot });
            assert(pages2[page_id as int].owner == l && pages2[page_id as int].out_chain == out)
                by {
                assert(pages1[page_id as int].owner == l && pages1[page_id as int].out_chain
                    == out);
            }
            lemma_append_event_post(o, *self, l, t, triplet, out, page_id, slot, head_page);
        }
    }
}


/// Common page-pool premises of the append lemmas: the new pool is well
/// formed, extends the old by at most one page owned by the written
/// chain, keeps every old entry, and adds exactly the one new entry at
/// `(page_id, slot)`.
pub open spec fn append_pool_ok(
    o: PagedGraph,
    f: PagedGraph,
    l: usize,
    t: i64,
    triplet: Triplet,
    out: bool,
    page_id: usize,
    slot: usize,
) -> bool {
    let pages0 = o.page_manager.pages@;
    let pages2 = f.page_manager.pages@;
    &&& pages_wf(pages2)
    &&& pages0.len() <= pages2.len() <= pages0.len() + 1
    &&& (forall|p: int|
        0 <= p < pages0.len() ==> (#[trigger] pages2[p]).owner == pages0[p].owner
            && pages2[p].out_chain == pages0[p].out_chain)
    &&& (forall|p: int|
        pages0.len() <= p < pages2.len() ==> (#[trigger] pages2[p]).owner == l
            && pages2[p].out_chain == out)
    &&& page_id < pages2.len()
    &&& pages2[page_id as int].owner == l
    &&& pages2[page_id as int].out_chain == out
    &&& slot < pages2[page_id as int].entries@.len()
    &&& slot == pages2[page_id as int].entries@.len() - 1
    &&& pages2[page_id as int].entries@[slot as int] == (t, triplet)
    &&& (forall|p: int, k: int|
        0 <= p < pages0.len() && 0 <= k < pages0[p].entries@.len() ==> k
            < pages2[p].entries@.len() && #[trigger] pages2[p].entries@[k]
            == pages0[p].entries@[k])
    &&& (forall|p: int, k: int|
        0 <= p < pages2.len() && 0 <= k < pages2[p].entries@.len() && !(p == page_id as int && k
            == slot as int) ==> 0 <= p < pages0.len() && k < pages0[p].entries@.len()
            && #[trigger] pages2[p].entries@[k] == pages0[p].entries@[k])
}

/// The chain-table premises of one append: the written chain's head and
/// log, and the untouched state of every other chain.
pub open spec fn append_chains_ok(
    o: PagedGraph,
    f: PagedGraph,
    l: usize,
    t: i64,
    triplet: Triplet,
    out: bool,
    page_id: usize,
    hd: usize,
) -> bool {
    let pages0 = o.page_manager.pages@;
    let pages2 = f.page_manager.pages@;
    &&& hd < pages2.len()
    &&& pages2[hd as int].owner == l
    &&& pages2[hd as int].out_chain == out
    &&& chain_seq(pages2, hd as int) == (if out {
        o.out_events(l as int)
    } else {
        o.in_events(l as int)
    }).push((t, triplet))
    &&& chain_tail(pages2, hd as int) == page_id as int
    &&& (forall|hk: int|
        0 <= hk < pages0.len() && !((#[trigger] pages0[hk]).owner == l && pages0[hk].out_chain
            == out) ==> chain_seq(pages2, hk) == chain_seq(pages0, hk) && chain_tail(pages2, hk)
            == chain_tail(pages0, hk))
    &&& (out ==> f.adj_list_page_pointers@ == o.adj_list_page_pointers@.update(l as int, Some(hd))
        && f.adj_list_tails@ == o.adj_list_tails@.update(l as int, Some(page_id))
        && f.in_adj_page_pointers@ == o.in_adj_page_pointers@ && f.in_adj_tails@
        == o.in_adj_tails@)
    &&& (!out ==> f.in_adj_page_pointers@ == o.in_adj_page_pointers@.update(l as int, Some(hd))
        && f.in_adj_tails@ == o.in_adj_tails@.update(l as int, Some(page_id))
        && f.adj_list_page_pointers@ == o.adj_list_page_pointers@ && f.adj_list_tails@
        == o.adj_list_tails@)
}

/// After one append the head and tail tables still describe real chains,
/// exactly one event log grew, and every other log is unchanged.
#[verifier::spinoff_prover]
proof fn lemma_append_chain_tables(
    o: PagedGraph,
    f: PagedGraph,
    l: usize,
    t: i64,
    triplet: Triplet,
    out: bool,
    page_id: usize,
    hd: usize,
    slot: usize,
)
    requires
        o.wf(),
        l < o.n_vertices(),
        append_pool_ok(o, f, l, t, triplet, out, page_id, slot),
        append_chains_ok(o, f, l, t, triplet, out, page_id, hd),
    ensures
        PagedGraph::chains_wf(f.adj_list_page_pointers@, f.adj_list_tails@, f.page_manager.pages@, true),
        PagedGraph::chains_wf(f.in_adj_page_pointers@, f.in_adj_tails@, f.page_manager.pages@, false),
        out ==> f.out_events(l as int) == o.out_events(l as int).push((t, triplet)),
        out ==> f.in_events(l as int) == o.in_events(l as int),
        !out ==> f.in_events(l as int) == o.in_events(l as int).push((t, triplet)),
        !out ==> f.out_events(l as int) == o.out_events(l as int),
        forall|k: int|
            0 <= k < o.n_vertices() && k != l ==> f.out_events(k) == #[trigger] o.out_events(k),
        forall|k: int|
            0 <= k < o.n_vertices() && k != l ==> f.in_events(k) == #[trigger] o.in_events(k),
{
    let pages0 = o.page_manager.pages@;
    let pages2 = f.page_manager.pages@;
    assert(PagedGraph::chains_wf(f.adj_list_page_pointers@, f.adj_list_tails@, pages2, true)) by {
        assert forall|k: int|
            0 <= k < f.adj_list_page_pointers@.len() implies match #[trigger] f.adj_list_page_pointers@[k] {
            Some(h) => {
                &&& h < pages2.len()
                &&& pages2[h as int].owner == k
                &&& pages2[h as int].out_chain == true
                &&& f.adj_list_tails@[k] == Some(chain_tail(pages2, h as int) as usize)
            },
            None => f.adj_list_tails@[k] is None,
        } by {
            if out && k == l {
                assert(f.adj_list_page_pointers@[k] == Some(hd));
                assert(f.adj_list_tails@[k] == Some(page_id));
            } else {
                assert(f.adj_list_page_pointers@[k] == o.adj_list_page_pointers@[k]);
                assert(f.adj_list_tails@[k] == o.adj_list_tails@[k]);
                match o.adj_list_page_pointers@[k] {
                    Some(h) => {
                        assert(!(pages0[h as int].owner == l && pages0[h as int].out_chain == out));
                        assert(chain_tail(pages2, h as int) == chain_tail(pages0, h as int));
                    },
                    None => {},
                }
            }
        }
    }
    assert(PagedGraph::chains_wf(f.in_adj_page_pointers@, f.in_adj_tails@, pages2, false)) by {
        assert forall|k: int|
            0 <= k < f.in_adj_page_pointers@.len() implies match #[trigger] f.in_adj_page_pointers@[k] {
            Some(h) => {
                &&& h < pages2.len()
                &&& pages2[h as int].owner == k
                &&& pages2[h as int].out_chain == false
                &&& f.in_adj_tails@[k] == Some(chain_tail(pages2, h as int) as usize)
            },
            None => f.in_adj_tails@[k] is None,
        } by {
            if !out && k == l {
                assert(f.in_adj_page_pointers@[k] == Some(hd));
                assert(f.in_adj_tails@[k] == Some(page_id));
            } else {
                assert(f.in_adj_page_pointers@[k] == o.in_adj_page_pointers@[k]);
                assert(f.in_adj_tails@[k] == o.in_adj_tails@[k]);
                match o.in_adj_page_pointers@[k] {
                    Some(h) => {
                        assert(!(pages0[h as int].owner == l && pages0[h as int].out_chain == out));
                        assert(chain_tail(pages2, h as int) == chain_tail(pages0, h as int));
                    },
                    None => {},
                }
            }
        }
    }
    assert forall|k: int|
        0 <= k < o.n_vertices() && k != l implies f.out_events(k) == #[trigger] o.out_events(
        k,
    ) by {
        assert(f.adj_list_page_pointers@[k] == o.adj_list_page_pointers@[k]);
        match o.adj_list_page_pointers@[k] {
            Some(h) => {
                assert(!(pages0[h as int].owner == l && pages0[h as int].out_chain == out));
            },
            None => {},
        }
    }
    assert forall|k: int|
        0 <= k < o.n_vertices() && k != l implies f.in_events(k) == #[trigger] o.in_events(k) by {
        assert(f.in_adj_page_pointers@[k] == o.in_adj_page_pointers@[k]);
        match o.in_adj_page_pointers@[k] {
            Some(h) => {
                assert(!(pages0[h as int].owner == l && pages0[h as int].out_chain == out));
            },
            None => {},
        }
    }
    if out {
        assert(f.out_events(l as int) == o.out_events(l as int).push((t, triplet)));
        assert(f.in_events(l as int) == o.in_events(l as int)) by {
            match o.in_adj_page_pointers@[l as int] {
                Some(h) => {
                    assert(pages0[h as int].out_chain == false);
                },
                None => {},
            }
        }
    } else {
        assert(f.in_events(l as int) == o.in_events(l as int).push((t, triplet)));
        assert(f.out_events(l as int) == o.out_events(l as int)) by {
            match o.adj_list_page_pointers@[l as int] {
                Some(h) => {
                    assert(pages0[h as int].out_chain == true);
                },
                None => {},
            }
        }
    }
}

/// After one append the temporal index is still complete (every page
/// entry is indexed under its timestamp) and sound (every indexed
/// location is a real entry at that timestamp).
#[verifier::spinoff_prover]
proof fn lemma_append_index(
    o: PagedGraph,
    f: PagedGraph,
    l: usize,
    t: i64,
    triplet: Triplet,
    out: bool,
    page_id: usize,
    slot: usize,
)
    requires
        o.wf(),
        append_pool_ok(o, f, l, t, triplet, out, page_id, slot),
        ti_locs(f.temporal_index@, t) == ti_locs(o.temporal_index@, t).push(
            Location { page: page_id, slot: slot },
        ),
        forall|x: i64| x != t ==> ti_locs(f.temporal_index@, x) == ti_locs(o.temporal_index@, x),
    ensures
        forall|p: int, k: int|
            0 <= p < f.page_manager.pages@.len() && 0 <= k
                < f.page_manager.pages@[p].entries@.len() ==> ti_locs(
                f.temporal_index@,
                (#[trigger] f.page_manager.pages@[p].entries@[k]).0,
            ).contains(Location { page: p as usize, slot: k as usize }),
        forall|x: i64, j: int|
            0 <= j < ti_locs(f.temporal_index@, x).len() ==> {
                let loc = #[trigger] ti_locs(f.temporal_index@, x)[j];
                &&& loc.page < f.page_manager.pages@.len()
                &&& loc.slot < f.page_manager.pages@[loc.page as int].entries@.len()
                &&& f.page_manager.pages@[loc.page as int].entries@[loc.slot as int].0 == x
            },
{
    let pages0 = o.page_manager.pages@;
    let pages2 = f.page_manager.pages@;
    let ti0 = o.temporal_index@;
    let ti2 = f.temporal_index@;
    assert forall|p: int, k: int|
        0 <= p < pages2.len() && 0 <= k < pages2[p].entries@.len() implies ti_locs(
        ti2,
        (#[trigger] pages2[p].entries@[k]).0,
    ).contains(Location { page: p as usize, slot: k as usize }) by {
        let x = pages2[p].entries@[k].0;
        if p == page_id as int && k == slot as int {
            assert(ti_locs(ti2, t).last() == Location { page: page_id, slot: slot });
        } else {
            assert(pages2[p].entries@[k] == pages0[p].entries@[k]);
            assert(ti_locs(ti0, x).contains(Location { page: p as usize, slot: k as usize }));
            if x == t {
                crate::seqs::lemma_push_contains(
                    ti_locs(ti0, t),
                    Location { page: page_id, slot: slot },
                    Location { page: p as usize, slot: k as usize },
                );
            } else {
                assert(ti_locs(ti2, x) == ti_locs(ti0, x));
            }
        }
    }
    assert forall|x: i64, j: int| 0 <= j < ti_locs(ti2, x).len() implies {
        let loc = #[trigger] ti_locs(ti2, x)[j];
        &&& loc.page < pages2.len()
        &&& loc.slot < pages2[loc.page as int].entries@.len()
        &&& pages2[loc.page as int].entries@[loc.slot as int].0 == x
    } by {
        let loc = ti_locs(ti2, x)[j];
        if x == t {
            if j < ti_locs(ti0, t).len() {
                assert(loc == ti_locs(ti0, t)[j]);
                assert(pages2[loc.page as int].entries@[loc.slot as int] == pages0[loc.page as int].entries@[loc.slot as int]);
            } else {
                assert(loc == Location { page: page_id, slot: slot });
            }
        } else {
            assert(ti_locs(ti2, x) == ti_locs(ti0, x));
            assert(loc == ti_locs(ti0, x)[j]);
            assert(pages2[loc.page as int].entries@[loc.slot as int] == pages0[loc.page as int].entries@[loc.slot as int]);
        }
    }
}

/// After one append every page still belongs to a known vertex and every
/// entry still sits at or after its owner's first-seen time.
#[verifier::spinoff_prover]
proof fn lemma_append_owners(
    o: PagedGraph,
    f: PagedGraph,
    l: usize,
    t: i64,
    triplet: Triplet,
    out: bool,
    page_id: usize,
    slot: usize,
)
    requires
        o.wf(),
        l < o.n_vertices(),
        f.logical_to_global@ == o.logical_to_global@,
        append_pool_ok(o, f, l, t, triplet, out, page_id, slot),
        f.first_seen@ == o.first_seen@.update(
            l as int,
            if t < o.first_seen@[l as int] {
                t
            } else {
                o.first_seen@[l as int]
            },
        ),
    ensures
        forall|p: int|
            0 <= p < f.page_manager.pages@.len() ==> (#[trigger] f.page_manager.pages@[p]).owner
                < f.n_vertices(),
        forall|p: int, k: int|
            0 <= p < f.page_manager.pages@.len() && 0 <= k
                < f.page_manager.pages@[p].entries@.len() ==> (
            #[trigger] f.page_manager.pages@[p].entries@[k]).0
                >= f.first_seen@[f.page_manager.pages@[p].owner as int],
{
    let pages0 = o.page_manager.pages@;
    let pages2 = f.page_manager.pages@;
    assert forall|p: int| 0 <= p < pages2.len() implies (#[trigger] pages2[p]).owner
        < f.n_vertices() by {
        if p < pages0.len() {
            assert(pages2[p].owner == pages0[p].owner);
        }
    }
    assert forall|p: int, k: int|
        0 <= p < pages2.len() && 0 <= k < pages2[p].entries@.len() implies (
    #[trigger] pages2[p].entries@[k]).0 >= f.first_seen@[pages2[p].owner as int] by {
        if p == page_id as int && k == slot as int {
            assert(pages2[p].owner == l);
            assert(f.first_seen@[l as int] <= t);
        } else {
            assert(pages2[p].entries@[k] == pages0[p].entries@[k]);
            assert(pages0[p].entries@[k].0 >= o.first_seen@[pages0[p].owner as int]);
            if pages0[p].owner == l {
                assert(f.first_seen@[l as int] <= o.first_seen@[l as int]);
            } else {
                assert(f.first_seen@[pages0[p].owner as int] == o.first_seen@[pages0[p].owner as int]);
            }
        }
    }
}

/// The consequences of one chain append: given the page, index and
/// table transitions that `append_event` performs, the store invariant
/// holds again and exactly one event log grew, by exactly that event.
#[verifier::spinoff_prover]
proof fn lemma_append_event_post(
    o: PagedGraph,
    f: PagedGraph,
    l: usize,
    t: i64,
    triplet: Triplet,
    out: bool,
    page_id: usize,
    slot: usize,
    hd: usize,
)
    requires
        o.wf(),
        l < o.n_vertices(),
        f.logical_to_global@ == o.logical_to_global@,
        f.global_to_logical_map@ == o.global_to_logical_map@,
        f.vertex_props@ == o.vertex_props@,
        f.edge_pairs@ == o.edge_pairs@,
        f.edge_props@ == o.edge_props@,
        f.temporal_index.wf(),
        append_pool_ok(o, f, l, t, triplet, out, page_id, slot),
        append_chains_ok(o, f, l, t, triplet, out, page_id, hd),
        ti_locs(f.temporal_index@, t) == ti_locs(o.temporal_index@, t).push(
            Location { page: page_id, slot: slot },
        ),
        forall|x: i64| x != t ==> ti_locs(f.temporal_index@, x) == ti_locs(o.temporal_index@, x),
        f.first_seen@ == o.first_seen@.update(
            l as int,
            if t < o.first_seen@[l as int] {
                t
            } else {
                o.first_seen@[l as int]
            },
        ),
    ensures
        f.wf(),
        out ==> f.out_events(l as int) == o.out_events(l as int).push((t, triplet)),
        out ==> f.in_events(l as int) == o.in_events(l as int),
        !out ==> f.in_events(l as int) == o.in_events(l as int).push((t, triplet)),
        !out ==> f.out_events(l as int) == o.out_events(l as int),
        forall|k: int|
            0 <= k < o.n_vertices() && k != l ==> f.out_events(k) == #[trigger] o.out_events(k),
        forall|k: int|
            0 <= k < o.n_vertices() && k != l ==> f.in_events(k) == #[trigger] o.in_events(k),
{
    lemma_append_chain_tables(o, f, l, t, triplet, out, page_id, hd, slot);
    lemma_append_index(o, f, l, t, triplet, out, page_id, slot);
    lemma_append_owners(o, f, l, t, triplet, out, page_id, slot);
}


impl PagedGraph {
    /// The edge key bound to an endpoint pair, if any.
    pub open spec fn spec_pair_key(pairs: Seq<(u64, u64)>, src: u64, dst: u64) -> Option<int>
        decreases pairs.len(),
    {
        if pairs.len() == 0 {
            None
        } else if pairs.last() == (src, dst) {
            Some(pairs.len() - 1)
        } else {
            Self::spec_pair_key(pairs.drop_last(), src, dst)
        }
    }

    /// The temporal history of a vertex property (empty when the vertex
    /// or the name is unknown).
    pub open spec fn spec_vertex_history(self, gid: u64, name: Seq<char>) -> Seq<(i64, Prop)> {
        if self.spec_known(gid) {
            crate::props::history_or_empty(
                self.vertex_props@[self.spec_lid(gid)].temporal_view(),
                name,
            )
        } else {
            Seq::empty()
        }
    }

    /// The static value of a vertex property, if any.
    pub open spec fn spec_vertex_static(self, gid: u64, name: Seq<char>) -> Option<Prop> {
        if self.spec_known(gid) {
            crate::props::static_of(self.vertex_props@[self.spec_lid(gid)].static_view(), name)
        } else {
            None
        }
    }

    /// Record a vertex at time `t`: resolve or allocate it, then append
    /// a vertex-only activity triplet to its out-chain and index it.
    pub fn add_vertex(&mut self, g_id: u64, t: i64) -> (r: Result<(), GraphError>)
        requires
            old(self).wf(),
        ensures
            final(self).wf(),
            r is Ok,
            final(self).spec_known(g_id),
            final(self).out_events_of(g_id) == old(self).out_events_of(g_id).push(
                (t, Triplet { vertex: g_id, other: None, edge_key: None }),
            ),
            final(self).in_events_of(g_id) == old(self).in_events_of(g_id),
            forall|g: u64|
                g != g_id ==> final(self).out_events_of(g) == old(self).out_events_of(g) && final(self).in_events_of(g) == old(self).in_events_of(g),
            forall|g: u64| final(self).spec_known(g) == (old(self).spec_known(g) || g == g_id),
            forall|x: i64|
                #[trigger] tc_has_key(final(self).temporal_index@, x) == (tc_has_key(
                    old(self).temporal_index@,
                    x,
                ) || x == t),
            final(self).temporal_index@.len() > 0,
            forall|x: i64|
                x != t ==> ti_locs(final(self).temporal_index@, x) == ti_locs(
                    old(self).temporal_index@,
                    x,
                ),
            ti_locs(final(self).temporal_index@, t).len() == ti_locs(
                old(self).temporal_index@,
                t,
            ).len() + 1,
            ti_locs(final(self).temporal_index@, t).subrange(
                0,
                ti_locs(old(self).temporal_index@, t).len() as int,
            ) == ti_locs(old(self).temporal_index@, t),
            forall|g: u64|
                old(self).spec_known(g) ==> final(self).spec_lid(g) == old(self).spec_lid(g),
            old(self).spec_known(g_id) ==> final(self).logical_to_global@ == old(self).logical_to_global@,
            !old(self).spec_known(g_id) ==> final(self).logical_to_global@ == old(self).logical_to_global@.push(g_id) && final(self).spec_lid(g_id) == old(self).n_vertices(),
            forall|g: u64, name: Seq<char>|
                #[trigger] final(self).spec_vertex_history(g, name) == old(self).spec_vertex_history(g, name),
            forall|g: u64, name: Seq<char>|
                #[trigger] final(self).spec_vertex_static(g, name) == old(self).spec_vertex_static(
                    g,
                    name,
                ),
            final(self).edge_pairs@ == old(self).edge_pairs@,
    {
        let ghost o = *old(self);
        let l = self.ensure_vertex(g_id, t);
        let ghost m = *self;
        self.append_event(l, t, Triplet::vertex_only(g_id), true);
        proof {
            lemma_known_lids_distinct(m, l as int, g_id);
            assert(final(self).out_events_of(g_id) == o.out_events_of(g_id).push(
                (t, Triplet { vertex: g_id, other: None, edge_key: None }),
            ));
            assert forall|g: u64|
                g != g_id implies final(self).out_events_of(g) == o.out_events_of(g) && final(self).in_events_of(g) == o.in_events_of(g) by {
                if m.spec_known(g) {
                    assert(m.spec_lid(g) != l as int);
                    assert(final(self).out_events(m.spec_lid(g)) == m.out_events(m.spec_lid(g)));
                    assert(final(self).in_events(m.spec_lid(g)) == m.in_events(m.spec_lid(g)));
                    assert(m.out_events_of(g) == o.out_events_of(g));
                    assert(m.in_events_of(g) == o.in_events_of(g));
                } else {
                    assert(!final(self).spec_known(g));
                    assert(!o.spec_known(g));
                }
            }
            assert forall|g: u64, name: Seq<char>|
                #[trigger] final(self).spec_vertex_history(g, name) == o.spec_vertex_history(
                g,
                name,
            ) by {
                if o.spec_known(g) {
                    assert(final(self).vertex_props@[o.spec_lid(g)] == o.vertex_props@[o.spec_lid(
                        g,
                    )]);
                } else if g == g_id {
                    assert(final(self).vertex_props@[l as int].temporal_view() =~= Seq::<
                        (String, crate::tcell::TimeCell),
                    >::empty());
                }
            }
            assert forall|g: u64, name: Seq<char>|
                #[trigger] final(self).spec_vertex_static(g, name) == o.spec_vertex_static(
                g,
                name,
            ) by {
                if o.spec_known(g) {
                    assert(final(self).vertex_props@[o.spec_lid(g)] == o.vertex_props@[o.spec_lid(
                        g,
                    )]);
                }
            }
        }
        Ok(())
    }

    /// Find the shared property-store key of an endpoint pair, creating
    /// the pair (with an empty store) on first sight.
    fn ensure_edge_key(&mut self, src: u64, dst: u64) -> (k: usize)
        requires
            old(self).wf(),
        ensures
            final(self).wf(),
            Self::spec_pair_key(final(self).edge_pairs@, src, dst) == Some(k as int),
            k < final(self).edge_pairs@.len(),
            final(self).edge_pairs@[k as int] == (src, dst),
            final(self).page_manager.pages@ == old(self).page_manager.pages@,
            final(self).temporal_index@ == old(self).temporal_index@,
            final(self).global_to_logical_map@ == old(self).global_to_logical_map@,
            final(self).logical_to_global@ == old(self).logical_to_global@,
            final(self).adj_list_page_pointers@ == old(self).adj_list_page_pointers@,
            final(self).in_adj_page_pointers@ == old(self).in_adj_page_pointers@,
            final(self).vertex_props@ == old(self).vertex_props@,
            final(self).first_seen@ == old(self).first_seen@,
            final(self).adj_list_tails@ == old(self).adj_list_tails@,
            final(self).in_adj_tails@ == old(self).in_adj_tails@,
            old(self).edge_pairs@.len() <= final(self).edge_pairs@.len(),
            Self::spec_pair_key(old(self).edge_pairs@, src, dst) is Some ==> *final(self) == *old(self),
            Self::spec_pair_key(old(self).edge_pairs@, src, dst) is None ==> {
                &&& k == old(self).edge_pairs@.len()
                &&& final(self).edge_pairs@ == old(self).edge_pairs@.push((src, dst))
                &&& final(self).edge_props@.len() == old(self).edge_props@.len() + 1
                &&& (forall|e: int|
                    0 <= e < old(self).edge_props@.len() ==> final(self).edge_props@[e]
                        == #[trigger] old(self).edge_props@[e])
                &&& final(self).edge_props@[k as int].temporal_view() == Seq::<
                    (String, crate::tcell::TimeCell),
                >::empty()
                &&& final(self).edge_props@[k as int].static_view() == Seq::<
                    (String, Prop),
                >::empty()
            },
    {
        let ghost s = self.edge_pairs@;
        proof {
            assert forall|a: int, b: int| 0 <= a < b < s.len() implies s[a] != s[b] by {
                assert(old(self).edge_pairs@[a] != old(self).edge_pairs@[b]);
            }
        }
        let n = self.edge_pairs.len();
        let mut i: usize = 0;
        while i < n
            invariant
                i <= n,
                n == s.len(),
                *self == *old(self),
                old(self).wf(),
                self.edge_pairs@ == s,
                forall|a: int, b: int| 0 <= a < b < s.len() ==> s[a] != s[b],
                forall|j: int| 0 <= j < i ==> #[trigger] s[j] != (src, dst),
            decreases n - i,
        {
            let pair = self.edge_pairs[i];
            if pair.0 == src && pair.1 == dst {
                proof {
                    assert(s[i as int] == (src, dst));
                    lemma_pair_key_at(s, src, dst, i as int);
                }
                return i;
            }
            proof {
                assert(s[i as int] != (src, dst));
            }
            i = i + 1;
        }
        proof {
            lemma_pair_key_absent(s, src, dst);
        }
        self.edge_pairs.push((src, dst));
        self.edge_props.push(PropertyStore::new());
        proof {
            let r = self.edge_pairs@;
            assert(r.last() == (src, dst));
            assert(Self::spec_pair_key(r, src, dst) == Some(r.len() - 1));
            assert forall|a: int, b: int| 0 <= a < b < r.len() implies r[a] != r[b] by {
                if b < s.len() {
                    assert(r[a] == s[a] && r[b] == s[b]);
                } else {
                    assert(r[a] == s[a]);
                }
            }
            assert forall|e: int|
                0 <= e < self.edge_props@.len() implies (#[trigger] self.edge_props@[e]).wf() by {
                if e < old(self).edge_props@.len() {
                    assert(self.edge_props@[e] == old(self).edge_props@[e]);
                }
            }
        }
        n
    }

    /// Record a directed edge event `(src, dst, t)`: both endpoints are
    /// resolved (created on first sight), the event is appended to
    /// `src`'s out-chain and mirrored on `dst`'s in-chain, both carrying
    /// the pair's shared edge key, and both entries are indexed.
    pub fn add_edge(&mut self, src: u64, dst: u64, t: i64) -> (r: Result<(), GraphError>)
        requires
            old(self).wf(),
        ensures
            final(self).wf(),
            r is Ok,
            final(self).spec_known(src),
            final(self).spec_known(dst),
            Self::spec_pair_key(final(self).edge_pairs@, src, dst) is Some,
            ({
                let k = Self::spec_pair_key(final(self).edge_pairs@, src, dst)->0 as u64;
                &&& final(self).out_events_of(src) == old(self).out_events_of(src).push(
                    (t, Triplet { vertex: src, other: Some(dst), edge_key: Some(k) }),
                )
                &&& final(self).in_events_of(dst) == old(self).in_events_of(dst).push(
                    (t, Triplet { vertex: dst, other: Some(src), edge_key: Some(k) }),
                )
            }),
            src != dst ==> final(self).in_events_of(src) == old(self).in_events_of(src),
            src != dst ==> final(self).out_events_of(dst) == old(self).out_events_of(dst),
            forall|g: u64|
                g != src && g != dst ==> final(self).out_events_of(g) == old(self).out_events_of(g)
                    && final(self).in_events_of(g) == old(self).in_events_of(g),
            forall|g: u64|
                final(self).spec_known(g) == (old(self).spec_known(g) || g == src || g == dst),
            forall|x: i64|
                #[trigger] tc_has_key(final(self).temporal_index@, x) == (tc_has_key(
                    old(self).temporal_index@,
                    x,
                ) || x == t),
            final(self).temporal_index@.len() > 0,
            forall|x: i64|
                x != t ==> ti_locs(final(self).temporal_index@, x) == ti_locs(
                    old(self).temporal_index@,
                    x,
                ),
            ti_locs(final(self).temporal_index@, t).len() == ti_locs(
                old(self).temporal_index@,
                t,
            ).len() + 2,
            ti_locs(final(self).temporal_index@, t).subrange(
                0,
                ti_locs(old(self).temporal_index@, t).len() as int,
            ) == ti_locs(old(self).temporal_index@, t),
            forall|g: u64|
                old(self).spec_known(g) ==> final(self).spec_lid(g) == old(self).spec_lid(g),
            final(self).logical_to_global@ == ({
                let mid = if old(self).spec_known(src) {
                    old(self).logical_to_global@
                } else {
                    old(self).logical_to_global@.push(src)
                };
                if old(self).spec_known(dst) || dst == src {
                    mid
                } else {
                    mid.push(dst)
                }
            }),
            !old(self).spec_known(src) ==> final(self).spec_lid(src) == old(self).n_vertices(),
            !old(self).spec_known(dst) && dst != src && old(self).spec_known(src) ==> final(self).spec_lid(dst) == old(self).n_vertices(),
            !old(self).spec_known(dst) && dst != src && !old(self).spec_known(src) ==> final(self).spec_lid(dst) == old(self).n_vertices() + 1,
    {
        let ghost o = *old(self);
        let ls = self.ensure_vertex(src, t);
        let ghost g1 = *self;
        let ld = self.ensure_vertex(dst, t);
        let ghost g2 = *self;
        let k = self.ensure_edge_key(src, dst);
        let ghost m = *self;
        proof {
            assert(m.spec_known(src) && m.spec_lid(src) == ls as int);
            assert(m.spec_known(dst) && m.spec_lid(dst) == ld as int);
            assert(m.out_events_of(src) == o.out_events_of(src)) by {
                assert(g1.out_events_of(src) == o.out_events_of(src));
                assert(g2.out_events_of(src) == g1.out_events_of(src));
                assert(m.out_events_of(src) == g2.out_events_of(src));
            }
            assert(m.in_events_of(dst) == o.in_events_of(dst)) by {
                assert(g1.in_events_of(dst) == o.in_events_of(dst));
                assert(g2.in_events_of(dst) == g1.in_events_of(dst));
                assert(m.in_events_of(dst) == g2.in_events_of(dst));
            }
            assert forall|g: u64| #[trigger] m.out_events_of(g) == o.out_events_of(g) by {
                assert(g2.out_events_of(g) == g1.out_events_of(g));
                assert(g1.out_events_of(g) == o.out_events_of(g));
                assert(m.out_events_of(g) == g2.out_events_of(g));
            }
            assert forall|g: u64| #[trigger] m.in_events_of(g) == o.in_events_of(g) by {
                assert(g2.in_events_of(g) == g1.in_events_of(g));
                assert(g1.in_events_of(g) == o.in_events_of(g));
                assert(m.in_events_of(g) == g2.in_events_of(g));
            }
        }
        let ke = k as u64;
        self.append_event(ls, t, Triplet::new(src, dst, ke), true);
        let ghost m2 = *self;
        proof {
            lemma_known_lids_distinct(m, ls as int, src);
            lemma_known_lids_distinct(m, ld as int, dst);
            assert(m2.spec_known(dst) && m2.spec_lid(dst) == ld as int);
        }
        self.append_event(ld, t, Triplet::new(dst, src, ke), false);
        proof {
            assert(Self::spec_pair_key(final(self).edge_pairs@, src, dst) == Some(k as int));
            assert(final(self).out_events_of(src) == o.out_events_of(src).push(
                (t, Triplet { vertex: src, other: Some(dst), edge_key: Some(ke) }),
            )) by {
                assert(m.out_events(ls as int) == m.out_events_of(src));
                assert(m2.out_events(ls as int) == m.out_events(ls as int).push(
                    (t, Triplet { vertex: src, other: Some(dst), edge_key: Some(ke) }),
                ));
                assert(final(self).out_events(ls as int) == m2.out_events(ls as int));
                assert(final(self).spec_lid(src) == ls as int);
            }
            assert(final(self).in_events_of(dst) == o.in_events_of(dst).push(
                (t, Triplet { vertex: dst, other: Some(src), edge_key: Some(ke) }),
            )) by {
                assert(m.in_events(ld as int) == m.in_events_of(dst));
                assert(m2.in_events(ld as int) == m.in_events(ld as int));
                assert(final(self).in_events(ld as int) == m2.in_events(ld as int).push(
                    (t, Triplet { vertex: dst, other: Some(src), edge_key: Some(ke) }),
                ));
                assert(final(self).spec_lid(dst) == ld as int);
            }
            if src != dst {
                assert(ls != ld) by {
                    assert(m.logical_to_global@[ls as int] == src);
                    assert(m.logical_to_global@[ld as int] == dst);
                }
                assert(final(self).in_events_of(src) == o.in_events_of(src)) by {
                    assert(m2.in_events(ls as int) == m.in_events(ls as int));
                    assert(final(self).in_events(ls as int) == m2.in_events(ls as int));
                    assert(final(self).spec_known(src) && final(self).spec_lid(src) == ls as int);
                    assert(m.in_events_of(src) == m.in_events(ls as int));
                    assert(m.in_events_of(src) == o.in_events_of(src));
                }
                assert(final(self).out_events_of(dst) == o.out_events_of(dst)) by {
                    assert(m2.out_events(ld as int) == m.out_events(ld as int));
                    assert(final(self).out_events(ld as int) == m2.out_events(ld as int));
                    assert(final(self).spec_known(dst) && final(self).spec_lid(dst) == ld as int);
                    assert(m.out_events_of(dst) == m.out_events(ld as int));
                    assert(m.out_events_of(dst) == o.out_events_of(dst));
                }
            }
            assert forall|g: u64|
                g != src && g != dst implies final(self).out_events_of(g) == o.out_events_of(g)
                && final(self).in_events_of(g) == o.in_events_of(g) by {
                if m.spec_known(g) {
                    assert(m.logical_to_global@[m.spec_lid(g)] == g);
                    assert(m.logical_to_global@[ls as int] == src);
                    assert(m.logical_to_global@[ld as int] == dst);
                    assert(m.spec_lid(g) != ls as int && m.spec_lid(g) != ld as int);
                    assert(m2.out_events(m.spec_lid(g)) == m.out_events(m.spec_lid(g)));
                    assert(m2.in_events(m.spec_lid(g)) == m.in_events(m.spec_lid(g)));
                    assert(final(self).out_events(m.spec_lid(g)) == m2.out_events(m.spec_lid(g)));
                    assert(final(self).in_events(m.spec_lid(g)) == m2.in_events(m.spec_lid(g)));
                    assert(m.out_events_of(g) == o.out_events_of(g));
                    assert(m.in_events_of(g) == o.in_events_of(g));
                } else {
                    assert(!final(self).spec_known(g));
                    assert(!o.spec_known(g));
                }
            }
        }
        Ok(())
    }

    /// Record one outbound edge event on `src`'s chain with an
    /// explicitly supplied edge key, creating `src` on first sight (the
    /// original single-direction write path).
    pub fn add_outbound_edge(&mut self, t: i64, src: u64, dst: u64, e: u64) -> (r: Result<
        (),
        GraphError,
    >)
        requires
            old(self).wf(),
        ensures
            final(self).wf(),
            r is Ok,
            final(self).spec_known(src),
            final(self).out_events_of(src) == old(self).out_events_of(src).push(
                (t, Triplet { vertex: src, other: Some(dst), edge_key: Some(e) }),
            ),
            forall|g: u64|
                g != src ==> final(self).out_events_of(g) == old(self).out_events_of(g),
            forall|g: u64| #[trigger] final(self).in_events_of(g) == old(self).in_events_of(g),
            forall|g: u64| final(self).spec_known(g) == (old(self).spec_known(g) || g == src),
            forall|x: i64|
                #[trigger] tc_has_key(final(self).temporal_index@, x) == (tc_has_key(
                    old(self).temporal_index@,
                    x,
                ) || x == t),
            forall|x: i64|
                x != t ==> ti_locs(final(self).temporal_index@, x) == ti_locs(
                    old(self).temporal_index@,
                    x,
                ),
            ti_locs(final(self).temporal_index@, t).len() == ti_locs(
                old(self).temporal_index@,
                t,
            ).len() + 1,
            ti_locs(final(self).temporal_index@, t).subrange(
                0,
                ti_locs(old(self).temporal_index@, t).len() as int,
            ) == ti_locs(old(self).temporal_index@, t),
            forall|g: u64|
                old(self).spec_known(g) ==> final(self).spec_lid(g) == old(self).spec_lid(g),
            old(self).spec_known(src) ==> final(self).logical_to_global@ == old(self).logical_to_global@,
            !old(self).spec_known(src) ==> final(self).logical_to_global@ == old(self).logical_to_global@.push(src) && final(self).spec_lid(src) == old(self).n_vertices(),
    {
        let ghost o = *old(self);
        let l = self.ensure_vertex(src, t);
        let ghost m = *self;
        self.append_event(l, t, Triplet::new(src, dst, e), true);
        proof {
            lemma_known_lids_distinct(m, l as int, src);
            assert forall|g: u64|
                g != src implies final(self).out_events_of(g) == o.out_events_of(g) by {
                if m.spec_known(g) {
                    assert(m.spec_lid(g) != l as int);
                    assert(final(self).out_events(m.spec_lid(g)) == m.out_events(m.spec_lid(g)));
                    assert(m.out_events_of(g) == o.out_events_of(g));
                } else {
                    assert(!final(self).spec_known(g));
                    assert(!o.spec_known(g));
                }
            }
            assert forall|g: u64| #[trigger]
                final(self).in_events_of(g) == o.in_events_of(g) by {
                if m.spec_known(g) {
                    assert(final(self).in_events(m.spec_lid(g)) == m.in_events(m.spec_lid(g)));
                    assert(m.in_events_of(g) == o.in_events_of(g));
                } else {
                    assert(!final(self).spec_known(g));
                    assert(!o.spec_known(g));
                }
            }
        }
        Ok(())
    }

    /// Write a temporal vertex property `(name, t, value)`, creating the
    /// vertex on first sight. Histories of every other vertex and name
    /// are untouched, as are the adjacency logs.
    pub fn add_vertex_property(&mut self, g_id: u64, name: &String, t: i64, value: Prop) -> (r:
        Result<(), GraphError>)
        requires
            old(self).wf(),
        ensures
            final(self).wf(),
            r is Ok,
            final(self).spec_known(g_id),
            final(self).spec_vertex_history(g_id, name@) == crate::tcell::tc_set(
                old(self).spec_vertex_history(g_id, name@),
                t,
                value,
            ),
            forall|g: u64, other: Seq<char>|
                g != g_id || other != name@ ==> #[trigger] final(self).spec_vertex_history(g, other)
                    == old(self).spec_vertex_history(g, other),
            forall|g: u64, other: Seq<char>|
                #[trigger] final(self).spec_vertex_static(g, other) == old(self).spec_vertex_static(g, other),
            forall|g: u64| #[trigger] final(self).out_events_of(g) == old(self).out_events_of(g),
            forall|g: u64| #[trigger] final(self).in_events_of(g) == old(self).in_events_of(g),
            forall|g: u64| final(self).spec_known(g) == (old(self).spec_known(g) || g == g_id),
    {
        let ghost o = *old(self);
        let l = self.ensure_vertex(g_id, t);
        let ghost m = *self;
        let mut st = self.vertex_props.remove(l);
        st.add_temporal(name, t, value);
        self.vertex_props.insert(l, st);
        proof {
            assert(self.vertex_props@ =~= m.vertex_props@.update(
                l as int,
                self.vertex_props@[l as int],
            ));
            lemma_known_lids_distinct(m, l as int, g_id);
            assert forall|k: int| 0 <= k < self.vertex_props@.len() implies (
            #[trigger] self.vertex_props@[k]).wf() by {
                if k != l {
                    assert(self.vertex_props@[k] == m.vertex_props@[k]);
                }
            }
            assert(m.spec_vertex_history(g_id, name@) == o.spec_vertex_history(g_id, name@));
            assert forall|g: u64, other: Seq<char>|
                g != g_id || other != name@ implies #[trigger] final(self).spec_vertex_history(
                g,
                other,
            ) == o.spec_vertex_history(g, other) by {
                if m.spec_known(g) {
                    if m.spec_lid(g) != l as int {
                        assert(self.vertex_props@[m.spec_lid(g)] == m.vertex_props@[m.spec_lid(
                            g,
                        )]);
                        assert(m.spec_vertex_history(g, other) == o.spec_vertex_history(g, other));
                    } else {
                        assert(g == g_id);
                        assert(other != name@);
                        assert(m.spec_vertex_history(g, other) == o.spec_vertex_history(g, other));
                    }
                }
            }
            assert forall|g: u64, other: Seq<char>|
                #[trigger] final(self).spec_vertex_static(g, other) == o.spec_vertex_static(
                g,
                other,
            ) by {
                if m.spec_known(g) {
                    if m.spec_lid(g) != l as int {
                        assert(self.vertex_props@[m.spec_lid(g)] == m.vertex_props@[m.spec_lid(
                            g,
                        )]);
                    }
                    assert(m.spec_vertex_static(g, other) == o.spec_vertex_static(g, other));
                }
            }
            assert forall|g: u64| #[trigger]
                final(self).out_events_of(g) == o.out_events_of(g) by {
                assert(final(self).out_events_of(g) == m.out_events_of(g));
                assert(m.out_events_of(g) == o.out_events_of(g));
            }
            assert forall|g: u64| #[trigger]
                final(self).in_events_of(g) == o.in_events_of(g) by {
                assert(final(self).in_events_of(g) == m.in_events_of(g));
                assert(m.in_events_of(g) == o.in_events_of(g));
            }
        }
        Ok(())
    }

    /// Write a write-once static vertex property, creating the vertex on
    /// first sight; rewriting an existing name is refused with
    /// `StaticPropertyRewrite` and changes nothing of the store's
    /// visible state.
    pub fn add_vertex_static_property(&mut self, g_id: u64, name: &String, value: Prop) -> (r:
        Result<(), GraphError>)
        requires
            old(self).wf(),
        ensures
            final(self).wf(),
            final(self).spec_known(g_id),
            r is Ok <==> old(self).spec_vertex_static(g_id, name@) is None,
            r is Ok ==> final(self).spec_vertex_static(g_id, name@) == Some(value),
            r is Err ==> final(self).spec_vertex_static(g_id, name@) == old(self).spec_vertex_static(g_id, name@),
            forall|g: u64, other: Seq<char>|
                g != g_id || other != name@ ==> #[trigger] final(self).spec_vertex_static(g, other)
                    == old(self).spec_vertex_static(g, other),
            forall|g: u64, other: Seq<char>|
                #[trigger] final(self).spec_vertex_history(g, other) == old(self).spec_vertex_history(g, other),
            forall|g: u64| #[trigger] final(self).out_events_of(g) == old(self).out_events_of(g),
            forall|g: u64| #[trigger] final(self).in_events_of(g) == old(self).in_events_of(g),
            forall|g: u64| final(self).spec_known(g) == (old(self).spec_known(g) || g == g_id),
    {
        let ghost o = *old(self);
        let l = self.ensure_vertex(g_id, i64::MAX);
        let ghost m = *self;
        let mut st = self.vertex_props.remove(l);
        let wrote = st.set_static(name, value);
        self.vertex_props.insert(l, st);
        proof {
            assert(self.vertex_props@ =~= m.vertex_props@.update(
                l as int,
                self.vertex_props@[l as int],
            ));
            lemma_known_lids_distinct(m, l as int, g_id);
            assert forall|k: int| 0 <= k < self.vertex_props@.len() implies (
            #[trigger] self.vertex_props@[k]).wf() by {
                if k != l {
                    assert(self.vertex_props@[k] == m.vertex_props@[k]);
                }
            }
            assert(m.spec_vertex_static(g_id, name@) == o.spec_vertex_static(g_id, name@));
            assert forall|g: u64, other: Seq<char>|
                g != g_id || other != name@ implies #[trigger] final(self).spec_vertex_static(
                g,
                other,
            ) == o.spec_vertex_static(g, other) by {
                if m.spec_known(g) {
                    if m.spec_lid(g) != l as int {
                        assert(self.vertex_props@[m.spec_lid(g)] == m.vertex_props@[m.spec_lid(
                            g,
                        )]);
                    } else {
                        assert(g == g_id && other != name@);
                    }
                    assert(m.spec_vertex_static(g, other) == o.spec_vertex_static(g, other));
                }
            }
            assert forall|g: u64, other: Seq<char>|
                #[trigger] final(self).spec_vertex_history(g, other) == o.spec_vertex_history(
                g,
                other,
            ) by {
                if m.spec_known(g) {
                    if m.spec_lid(g) != l as int {
                        assert(self.vertex_props@[m.spec_lid(g)] == m.vertex_props@[m.spec_lid(
                            g,
                        )]);
                    }
                    assert(m.spec_vertex_history(g, other) == o.spec_vertex_history(g, other));
                }
            }
            assert forall|g: u64| #[trigger]
                final(self).out_events_of(g) == o.out_events_of(g) by {
                assert(final(self).out_events_of(g) == m.out_events_of(g));
                assert(m.out_events_of(g) == o.out_events_of(g));
            }
            assert forall|g: u64| #[trigger]
                final(self).in_events_of(g) == o.in_events_of(g) by {
                assert(final(self).in_events_of(g) == m.in_events_of(g));
                assert(m.in_events_of(g) == o.in_events_of(g));
            }
        }
        if wrote {
            Ok(())
        } else {
            Err(GraphError::StaticPropertyRewrite)
        }
    }
}

/// Distinct known global ids resolve to distinct logical ids; a vertex's
/// own logical id maps back to it.
proof fn lemma_known_lids_distinct(m: PagedGraph, l: int, gid: u64)
    requires
        m.wf(),
        m.spec_known(gid),
        l == m.spec_lid(gid),
    ensures
        0 <= l < m.n_vertices(),
        m.logical_to_global@[l] == gid,
        forall|g: u64| m.spec_known(g) && g != gid ==> #[trigger] m.spec_lid(g) != l,
{
    assert forall|g: u64| m.spec_known(g) && g != gid implies #[trigger] m.spec_lid(g) != l by {
        if m.spec_lid(g) == l {
            assert(m.logical_to_global@[m.spec_lid(g)] == g);
        }
    }
}

/// A pair found at index `i` of a duplicate-free pair table is the
/// pair's binding.
proof fn lemma_pair_key_at(s: Seq<(u64, u64)>, src: u64, dst: u64, i: int)
    requires
        forall|a: int, b: int| 0 <= a < b < s.len() ==> s[a] != s[b],
        0 <= i < s.len(),
        s[i] == (src, dst),
    ensures
        PagedGraph::spec_pair_key(s, src, dst) == Some(i),
    decreases s.len(),
{
    if i == s.len() - 1 {
        assert(s.last() == s[i]);
    } else {
        assert(s.last() == s[s.len() - 1]);
        assert(s.last() != (src, dst));
        assert(forall|j: int| 0 <= j < s.len() - 1 ==> #[trigger] s.drop_last()[j] == s[j]);
        lemma_pair_key_at(s.drop_last(), src, dst, i);
    }
}

/// A pair at no index has no binding.
proof fn lemma_pair_key_absent(s: Seq<(u64, u64)>, src: u64, dst: u64)
    requires
        forall|j: int| 0 <= j < s.len() ==> #[trigger] s[j] != (src, dst),
    ensures
        PagedGraph::spec_pair_key(s, src, dst) is None,
    decreases s.len(),
{
    if s.len() > 0 {
        assert(s[s.len() - 1] != (src, dst));
        assert(forall|j: int| 0 <= j < s.len() - 1 ==> #[trigger] s.drop_last()[j] == s[j]);
        lemma_pair_key_absent(s.drop_last(), src, dst);
    }
}


/// The destination ids of the edge entries of an event log (vertex-only
/// activity entries carry no destination and are skipped).
pub open spec fn edge_dsts(s: Seq<(i64, Triplet)>) -> Seq<u64>
    decreases s.len(),
{
    if s.len() == 0 {
        Seq::empty()
    } else {
        let rest = edge_dsts(s.drop_last());
        match s.last().1.other {
            Some(d) => rest.push(d),
            None => rest,
        }
    }
}

/// The edge entries of an event log, dropping vertex-only activity.
pub open spec fn edge_only(s: Seq<(i64, Triplet)>) -> Seq<(i64, Triplet)>
    decreases s.len(),
{
    if s.len() == 0 {
        Seq::empty()
    } else {
        let rest = edge_only(s.drop_last());
        if s.last().1.other is Some {
            rest.push(s.last())
        } else {
            rest
        }
    }
}

/// Unfolds `edge_dsts` and `edge_only` one step at the pushed end.
pub proof fn lemma_edge_step(s: Seq<(i64, Triplet)>, x: (i64, Triplet))
    ensures
        edge_dsts(s.push(x)) == match x.1.other {
            Some(d) => edge_dsts(s).push(d),
            None => edge_dsts(s),
        },
        edge_only(s.push(x)) == if x.1.other is Some {
            edge_only(s).push(x)
        } else {
            edge_only(s)
        },
{
    assert(s.push(x).drop_last() =~= s);
}

/// An event log with an edge entry to `d` in it puts `d` among the
/// destinations.
pub proof fn lemma_edge_dsts_contains(s: Seq<(i64, Triplet)>, i: int)
    requires
        0 <= i < s.len(),
        s[i].1.other is Some,
    ensures
        edge_dsts(s).contains(s[i].1.other->0),
    decreases s.len(),
{
    if i == s.len() - 1 {
        assert(s.last() == s[i]);
        assert(edge_dsts(s).last() == s[i].1.other->0);
    } else {
        assert(forall|j: int| 0 <= j < s.len() - 1 ==> #[trigger] s.drop_last()[j] == s[j]);
        lemma_edge_dsts_contains(s.drop_last(), i);
        match s.last().1.other {
            Some(d) => {
                crate::seqs::lemma_push_contains(
                    edge_dsts(s.drop_last()),
                    d,
                    s[i].1.other->0,
                );
            },
            None => {},
        }
    }
}

/// A destination among `edge_dsts` comes from some edge entry.
pub proof fn lemma_edge_dsts_exists(s: Seq<(i64, Triplet)>, d: u64)
    requires
        edge_dsts(s).contains(d),
    ensures
        exists|i: int| 0 <= i < s.len() && (#[trigger] s[i]).1.other == Some(d),
    decreases s.len(),
{
    if s.len() > 0 {
        let rest = edge_dsts(s.drop_last());
        match s.last().1.other {
            Some(x) => {
                crate::seqs::lemma_push_contains(rest, x, d);
                if x == d {
                    assert(s[s.len() - 1].1.other == Some(d));
                } else {
                    lemma_edge_dsts_exists(s.drop_last(), d);
                    let i = choose|i: int|
                        0 <= i < s.drop_last().len() && (#[trigger] s.drop_last()[i]).1.other
                            == Some(d);
                    assert(s[i].1.other == Some(d));
                }
            },
            None => {
                lemma_edge_dsts_exists(s.drop_last(), d);
                let i = choose|i: int|
                    0 <= i < s.drop_last().len() && (#[trigger] s.drop_last()[i]).1.other == Some(
                        d,
                    );
                assert(s[i].1.other == Some(d));
            },
        }
    }
}

impl PagedGraph {
    /// The windowed event log a traversal reads: the out-chain, the
    /// in-chain, or both in that order.
    pub open spec fn spec_events(self, gid: u64, d: Direction, a: i64, b: i64) -> Seq<
        (i64, Triplet),
    > {
        match d {
            Direction::OUT => tc_window(self.out_events_of(gid), a, b),
            Direction::IN => tc_window(self.in_events_of(gid), a, b),
            Direction::BOTH => tc_window(self.out_events_of(gid), a, b) + tc_window(
                self.in_events_of(gid),
                a,
                b,
            ),
        }
    }

    /// The distinct neighbour ids seen from `gid` in the window, in
    /// first-seen order.
    pub open spec fn spec_neighbours(self, gid: u64, d: Direction, a: i64, b: i64) -> Seq<u64> {
        dedup(edge_dsts(self.spec_events(gid, d, a, b)))
    }

    /// The number of distinct neighbours in the window.
    pub open spec fn spec_degree(self, gid: u64, d: Direction, a: i64, b: i64) -> int {
        self.spec_neighbours(gid, d, a, b).len() as int
    }

    /// Whether some edge event `src -> dst` lies in the window.
    pub open spec fn spec_has_edge(self, src: u64, dst: u64, a: i64, b: i64) -> bool {
        edge_dsts(self.spec_events(src, Direction::OUT, a, b)).contains(dst)
    }

    /// Whether the vertex exists in the window: it is known, and either
    /// some of its activity (vertex records or edges, either direction)
    /// falls in the window, or it carries a static property (which is
    /// not time-bound).
    pub open spec fn spec_has_vertex(self, gid: u64, a: i64, b: i64) -> bool {
        &&& self.spec_known(gid)
        &&& {
            ||| tc_window(self.activity_of(gid), a, b).len() > 0
            ||| self.vertex_props@[self.spec_lid(gid)].static_view().len() > 0
        }
    }

    /// Sum of the windowed out-degrees of the first `l` vertices.
    pub open spec fn spec_sum_out_degrees(self, a: i64, b: i64, l: int) -> int
        decreases l,
    {
        if l <= 0 {
            0
        } else {
            self.spec_sum_out_degrees(a, b, l - 1) + self.spec_degree(
                self.logical_to_global@[l - 1],
                Direction::OUT,
                a,
                b,
            )
        }
    }

    /// How many of the first `l` vertices exist in the window.
    pub open spec fn spec_num_vertices_upto(self, a: i64, b: i64, l: int) -> int
        decreases l,
    {
        if l <= 0 {
            0
        } else {
            self.spec_num_vertices_upto(a, b, l - 1) + if self.spec_has_vertex(
                self.logical_to_global@[l - 1],
                a,
                b,
            ) {
                1int
            } else {
                0int
            }
        }
    }

    /// The windowed entries of the chain headed at `head` (all of its
    /// pages scanned in order), or nothing for an absent chain.
    fn chain_window(&self, head: Option<usize>, a: i64, b: i64) -> (r: Vec<(i64, Triplet)>)
        requires
            pages_wf(self.page_manager.pages@),
            match head {
                Some(h) => h < self.page_manager.pages@.len(),
                None => true,
            },
        ensures
            r@ == tc_window(
                match head {
                    None => Seq::<(i64, Triplet)>::empty(),
                    Some(h) => chain_seq(self.page_manager.pages@, h as int),
                },
                a,
                b,
            ),
    {
        let ghost pages = self.page_manager.pages@;
        let mut r: Vec<(i64, Triplet)> = Vec::new();
        let mut cur: usize = match head {
            None => {
                proof {
                    assert(tc_window(Seq::<(i64, Triplet)>::empty(), a, b) =~= Seq::<
                        (i64, Triplet),
                    >::empty());
                }
                return r;
            },
            Some(h) => h,
        };
        let ghost h0 = cur as int;
        proof {
            assert(Seq::<(i64, Triplet)>::empty() + tc_window(chain_seq(pages, h0), a, b)
                =~= tc_window(chain_seq(pages, h0), a, b));
        }
        loop
            invariant
                pages_wf(pages),
                self.page_manager.pages@ == pages,
                cur < pages.len(),
                head is Some && head->0 as int == h0,
                0 <= h0 < pages.len(),
                tc_window(chain_seq(pages, h0), a, b) == r@ + tc_window(
                    chain_seq(pages, cur as int),
                    a,
                    b,
                ),
            decreases pages.len() - cur,
        {
            let page = &self.page_manager.pages[cur];
            let mut scanned = page.scan(a, b);
            proof {
                match pages[cur as int].overflow {
                    None => {
                        assert(chain_seq(pages, cur as int) == pages[cur as int].entries@);
                    },
                    Some(nxt) => {
                        assert(chain_seq(pages, cur as int) == pages[cur as int].entries@
                            + chain_seq(pages, nxt as int));
                        crate::tcell::lemma_tc_window_concat(
                            pages[cur as int].entries@,
                            chain_seq(pages, nxt as int),
                            a,
                            b,
                        );
                    },
                }
            }
            r.append(&mut scanned);
            match page.overflow_page() {
                None => {
                    proof {
                        assert(r@ + tc_window(Seq::<(i64, Triplet)>::empty(), a, b) =~= r@);
                        assert(tc_window(Seq::<(i64, Triplet)>::empty(), a, b) =~= Seq::<
                            (i64, Triplet),
                        >::empty());
                    }
                    return r;
                },
                Some(nxt) => {
                    proof {
                        assert((r@ + tc_window(chain_seq(pages, nxt as int), a, b)) =~= tc_window(
                            chain_seq(pages, h0),
                            a,
                            b,
                        ));
                    }
                    cur = nxt;
                },
            }
        }
    }

    /// The windowed event log of a vertex in one or both directions, in
    /// chain order (out-chain first for `BOTH`). Vertex-only activity
    /// records are included; `edges` filters them out.
    pub fn events(&self, g_id: u64, d: Direction, t_start: i64, t_end: i64) -> (r: Vec<
        (i64, Triplet),
    >)
        requires
            self.wf(),
        ensures
            r@ == self.spec_events(g_id, d, t_start, t_end),
    {
        let lid = match self.global_to_logical_map.get(&g_id) {
            Some(l) => *l,
            None => {
                proof {
                    assert(tc_window(Seq::<(i64, Triplet)>::empty(), t_start, t_end) =~= Seq::<
                        (i64, Triplet),
                    >::empty());
                    assert(Seq::<(i64, Triplet)>::empty() + Seq::<(i64, Triplet)>::empty()
                        =~= Seq::<(i64, Triplet)>::empty());
                }
                return Vec::new();
            },
        };
        match d {
            Direction::OUT => self.chain_window(self.adj_list_page_pointers[lid], t_start, t_end),
            Direction::IN => self.chain_window(self.in_adj_page_pointers[lid], t_start, t_end),
            Direction::BOTH => {
                let mut r = self.chain_window(
                    self.adj_list_page_pointers[lid],
                    t_start,
                    t_end,
                );
                let mut inn = self.chain_window(self.in_adj_page_pointers[lid], t_start, t_end);
                r.append(&mut inn);
                r
            },
        }
    }

    /// The windowed edge events of a vertex: each `(t, triplet)` with a
    /// destination, in chain order, duplicates kept.
    pub fn edges(&self, g_id: u64, d: Direction, t_start: i64, t_end: i64) -> (r: Vec<
        (i64, Triplet),
    >)
        requires
            self.wf(),
        ensures
            r@ == edge_only(self.spec_events(g_id, d, t_start, t_end)),
    {
        let evs = self.events(g_id, d, t_start, t_end);
        let ghost s = evs@;
        let n = evs.len();
        let mut r: Vec<(i64, Triplet)> = Vec::new();
        let mut i: usize = 0;
        proof {
            assert(s.subrange(0, 0) =~= Seq::<(i64, Triplet)>::empty());
        }
        while i < n
            invariant
                i <= n,
                n == s.len(),
                evs@ == s,
                r@ == edge_only(s.subrange(0, i as int)),
            decreases n - i,
        {
            let e = evs[i];
            proof {
                lemma_edge_step(s.subrange(0, i as int), s[i as int]);
                assert(s.subrange(0, i + 1) =~= s.subrange(0, i as int).push(s[i as int]));
            }
            if e.1.other.is_some() {
                r.push(e);
            }
            i = i + 1;
        }
        proof {
            assert(s.subrange(0, n as int) =~= s);
        }
        r
    }

    /// The distinct neighbours of a vertex in the window, in first-seen
    /// order.
    pub fn neighbours(&self, g_id: u64, d: Direction, t_start: i64, t_end: i64) -> (r: Vec<u64>)
        requires
            self.wf(),
        ensures
            r@ == self.spec_neighbours(g_id, d, t_start, t_end),
            crate::seqs::no_dups(r@),
    {
        proof {
            crate::seqs::lemma_dedup_no_dups(edge_dsts(self.spec_events(g_id, d, t_start, t_end)));
        }
        let evs = self.events(g_id, d, t_start, t_end);
        let ghost s = evs@;
        let n = evs.len();
        let mut r: Vec<u64> = Vec::new();
        let mut i: usize = 0;
        proof {
            assert(s.subrange(0, 0) =~= Seq::<(i64, Triplet)>::empty());
        }
        while i < n
            invariant
                i <= n,
                n == s.len(),
                evs@ == s,
                r@ == dedup(edge_dsts(s.subrange(0, i as int))),
            decreases n - i,
        {
            proof {
                lemma_edge_step(s.subrange(0, i as int), s[i as int]);
                assert(s.subrange(0, i + 1) =~= s.subrange(0, i as int).push(s[i as int]));
            }
            match evs[i].1.other {
                Some(dst) => {
                    proof {
                        crate::seqs::lemma_dedup_push(edge_dsts(s.subrange(0, i as int)), dst);
                    }
                    if !vec_contains_u64(&r, dst) {
                        r.push(dst);
                    }
                },
                None => {},
            }
            i = i + 1;
        }
        proof {
            assert(s.subrange(0, n as int) =~= s);
        }
        r
    }

    /// The windowed degree: the number of distinct neighbours.
    pub fn degree(&self, g_id: u64, d: Direction, t_start: i64, t_end: i64) -> (r: usize)
        requires
            self.wf(),
        ensures
            r == self.spec_degree(g_id, d, t_start, t_end),
    {
        let nb = self.neighbours(g_id, d, t_start, t_end);
        nb.len()
    }

    /// Whether an edge event `src -> dst` lies in the window.
    pub fn has_edge(&self, src: u64, dst: u64, t_start: i64, t_end: i64) -> (r: bool)
        requires
            self.wf(),
        ensures
            r == self.spec_has_edge(src, dst, t_start, t_end),
    {
        let nb = self.neighbours(src, Direction::OUT, t_start, t_end);
        proof {
            crate::seqs::lemma_dedup_contains(
                edge_dsts(self.spec_events(src, Direction::OUT, t_start, t_end)),
                dst,
            );
        }
        vec_contains_u64(&nb, dst)
    }

    /// Whether the vertex exists in the window (see `spec_has_vertex`).
    pub fn has_vertex(&self, g_id: u64, t_start: i64, t_end: i64) -> (r: bool)
        requires
            self.wf(),
        ensures
            r == self.spec_has_vertex(g_id, t_start, t_end),
    {
        let lid = match self.global_to_logical_map.get(&g_id) {
            Some(l) => *l,
            None => {
                return false;
            },
        };
        let evs = self.events(g_id, Direction::BOTH, t_start, t_end);
        proof {
            crate::tcell::lemma_tc_window_concat(
                self.out_events_of(g_id),
                self.in_events_of(g_id),
                t_start,
                t_end,
            );
        }
        if evs.len() > 0 {
            return true;
        }
        self.vertex_props[lid].has_any_static()
    }

    /// The number of vertices that exist in the window.
    pub fn num_vertices(&self, t_start: i64, t_end: i64) -> (r: usize)
        requires
            self.wf(),
        ensures
            r == self.spec_num_vertices_upto(t_start, t_end, self.n_vertices() as int),
    {
        let n = self.logical_to_global.len();
        let mut count: usize = 0;
        let mut l: usize = 0;
        while l < n
            invariant
                self.wf(),
                l <= n,
                n == self.n_vertices(),
                count == self.spec_num_vertices_upto(t_start, t_end, l as int),
                count <= l,
            decreases n - l,
        {
            if self.has_vertex(self.logical_to_global[l], t_start, t_end) {
                count = count + 1;
            }
            l = l + 1;
        }
        count
    }

    /// The number of distinct adjacent pairs in the window: the sum over
    /// every vertex of its windowed out-degree (the conservation law is
    /// this contract).
    pub fn num_edges(&self, t_start: i64, t_end: i64) -> (r: usize)
        requires
            self.wf(),
        ensures
            r == self.spec_sum_out_degrees(t_start, t_end, self.n_vertices() as int),
    {
        let n = self.logical_to_global.len();
        let mut acc: Vec<u64> = Vec::new();
        let mut l: usize = 0;
        while l < n
            invariant
                self.wf(),
                l <= n,
                n == self.n_vertices(),
                acc@.len() == self.spec_sum_out_degrees(t_start, t_end, l as int),
            decreases n - l,
        {
            let mut nb = self.neighbours(
                self.logical_to_global[l],
                Direction::OUT,
                t_start,
                t_end,
            );
            acc.append(&mut nb);
            l = l + 1;
        }
        acc.len()
    }

    /// The ids of all vertices ever seen, in logical-id order.
    pub fn vertex_ids(&self) -> (r: Vec<u64>)
        ensures
            r@ == self.logical_to_global@,
    {
        let n = self.logical_to_global.len();
        let mut r: Vec<u64> = Vec::new();
        let mut i: usize = 0;
        while i < n
            invariant
                i <= n,
                n == self.logical_to_global@.len(),
                r@ == self.logical_to_global@.subrange(0, i as int),
            decreases n - i,
        {
            r.push(self.logical_to_global[i]);
            proof {
                assert(r@ =~= self.logical_to_global@.subrange(0, i + 1));
            }
            i = i + 1;
        }
        proof {
            assert(self.logical_to_global@.subrange(0, n as int) =~= self.logical_to_global@);
        }
        r
    }

    /// The smallest timestamp ever written, or `None` on a store with no
    /// events. Every written timestamp is a key of the temporal index,
    /// so the first key is the earliest time.
    pub fn earliest_time(&self) -> (r: Option<i64>)
        requires
            self.wf(),
        ensures
            match r {
                None => self.temporal_index@.len() == 0,
                Some(k) => tc_has_key(self.temporal_index@, k) && forall|x: i64|
                    #[trigger] tc_has_key(self.temporal_index@, x) ==> k <= x,
            },
    {
        let r = self.temporal_index.first_time();
        proof {
            match r {
                None => {},
                Some(k) => {
                    assert(self.temporal_index@[0].0 == k);
                    assert(tc_has_key(self.temporal_index@, k));
                    assert forall|x: i64| #[trigger]
                        tc_has_key(self.temporal_index@, x) implies k <= x by {
                        let i = choose|i: int|
                            0 <= i < self.temporal_index@.len() && self.temporal_index@[i].0 == x;
                        assert(self.temporal_index@[0].0 <= self.temporal_index@[i].0);
                    }
                },
            }
        }
        r
    }

    /// The largest timestamp ever written, or `None` on a store with no
    /// events.
    pub fn latest_time(&self) -> (r: Option<i64>)
        requires
            self.wf(),
        ensures
            match r {
                None => self.temporal_index@.len() == 0,
                Some(k) => tc_has_key(self.temporal_index@, k) && forall|x: i64|
                    #[trigger] tc_has_key(self.temporal_index@, x) ==> x <= k,
            },
    {
        let r = self.temporal_index.last_time();
        proof {
            match r {
                None => {},
                Some(k) => {
                    let last = self.temporal_index@.len() - 1;
                    assert(self.temporal_index@[last].0 == k);
                    assert(tc_has_key(self.temporal_index@, k));
                    assert forall|x: i64| #[trigger]
                        tc_has_key(self.temporal_index@, x) implies x <= k by {
                        let i = choose|i: int|
                            0 <= i < self.temporal_index@.len() && self.temporal_index@[i].0 == x;
                        assert(self.temporal_index@[i].0 <= self.temporal_index@[last].0);
                    }
                },
            }
        }
        r
    }

    /// Whether the vertex has a temporal property of this name.
    pub open spec fn spec_vertex_has_temporal(self, gid: u64, name: Seq<char>) -> bool {
        self.spec_known(gid) && crate::props::temporal_of(
            self.vertex_props@[self.spec_lid(gid)].temporal_view(),
            name,
        ) is Some
    }

    /// Whether the vertex has a temporal property of this name, or, when
    /// `include_static` is set, a static one.
    pub fn has_property(&self, g_id: u64, name: &String, include_static: bool) -> (r: bool)
        requires
            self.wf(),
        ensures
            r == (self.spec_vertex_has_temporal(g_id, name@) || (include_static
                && self.spec_vertex_static(g_id, name@) is Some)),
    {
        let lid = match self.global_to_logical_map.get(&g_id) {
            Some(l) => *l,
            None => {
                return false;
            },
        };
        let st = &self.vertex_props[lid];
        if st.has_temporal(name) {
            return true;
        }
        include_static && st.has_static(name)
    }

    /// The latest temporal value of the property, falling back to the
    /// static value when `include_static` is set and no temporal write
    /// exists.
    pub fn property(&self, g_id: u64, name: &String, include_static: bool) -> (r: Option<Prop>)
        requires
            self.wf(),
        ensures
            r == if crate::tcell::tc_latest(self.spec_vertex_history(g_id, name@), i64::MAX)
                is Some {
                crate::tcell::tc_latest(self.spec_vertex_history(g_id, name@), i64::MAX)
            } else if include_static {
                self.spec_vertex_static(g_id, name@)
            } else {
                None
            },
    {
        let lid = match self.global_to_logical_map.get(&g_id) {
            Some(l) => *l,
            None => {
                return None;
            },
        };
        let st = &self.vertex_props[lid];
        let temporal = st.latest(name, i64::MAX);
        proof {
            if crate::props::temporal_of(st.temporal_view(), name@) is None {
                assert(self.spec_vertex_history(g_id, name@) =~= Seq::<(i64, Prop)>::empty());
            }
        }
        match temporal {
            Some(v) => Some(v),
            None => {
                if include_static {
                    st.get_static(name)
                } else {
                    None
                }
            },
        }
    }

    /// The property's history inside the window, in ascending time order.
    pub fn property_history(&self, g_id: u64, name: &String, t_start: i64, t_end: i64) -> (r: Vec<
        (i64, Prop),
    >)
        requires
            self.wf(),
        ensures
            r@ == tc_window(self.spec_vertex_history(g_id, name@), t_start, t_end),
    {
        let lid = match self.global_to_logical_map.get(&g_id) {
            Some(l) => *l,
            None => {
                proof {
                    assert(tc_window(Seq::<(i64, Prop)>::empty(), t_start, t_end) =~= Seq::<
                        (i64, Prop),
                    >::empty());
                }
                return Vec::new();
            },
        };
        self.vertex_props[lid].history_window(name, t_start, t_end)
    }

    /// The static property value, if any.
    pub fn static_property(&self, g_id: u64, name: &String) -> (r: Option<Prop>)
        requires
            self.wf(),
        ensures
            r == self.spec_vertex_static(g_id, name@),
    {
        let lid = match self.global_to_logical_map.get(&g_id) {
            Some(l) => *l,
            None => {
                return None;
            },
        };
        self.vertex_props[lid].get_static(name)
    }

    /// Whether a static property of this name exists.
    pub fn has_static_property(&self, g_id: u64, name: &String) -> (r: bool)
        requires
            self.wf(),
        ensures
            r == (self.spec_vertex_static(g_id, name@) is Some),
    {
        let lid = match self.global_to_logical_map.get(&g_id) {
            Some(l) => *l,
            None => {
                return false;
            },
        };
        self.vertex_props[lid].has_static(name)
    }
}

/// Whether a vector of ids holds a value.
fn vec_contains_u64(v: &Vec<u64>, x: u64) -> (r: bool)
    ensures
        r == v@.contains(x),
{
    let n = v.len();
    let mut i: usize = 0;
    while i < n
        invariant
            i <= n,
            n == v@.len(),
            forall|k: int| 0 <= k < i ==> v@[k] != x,
        decreases n - i,
    {
        if v[i] == x {
            return true;
        }
        i = i + 1;
    }
    proof {
        if v@.contains(x) {
            let k = choose|k: int| 0 <= k < v@.len() && v@[k] == x;
        }
    }
    false
}


/// A vertex whose activity log holds an event inside a window exists in
/// that window: in particular, after `add_vertex(v, t)`, `has_vertex(v)`
/// holds in every window containing `t`.
pub proof fn lemma_vertex_visible(g: PagedGraph, gid: u64, i: int, a: i64, b: i64)
    requires
        g.spec_known(gid),
        0 <= i < g.activity_of(gid).len(),
        in_window(a, b, g.activity_of(gid)[i].0),
    ensures
        g.spec_has_vertex(gid, a, b),
{
    let s = g.activity_of(gid);
    crate::tcell::lemma_tc_window_contains(s, a, b, s[i]);
    assert(s.contains(s[i]));
    let w = tc_window(s, a, b);
    assert(w.contains(s[i]));
    let j = choose|j: int| 0 <= j < w.len() && w[j] == s[i];
}

/// An out-edge event `src -> dst` inside the window makes the edge
/// visible there: `has_edge(src, dst)` holds, `dst` is among `src`'s
/// out-neighbours, `src` is among `dst`'s in-neighbours (given the
/// mirrored in-event), and `src`'s out-degree is at least one.
pub proof fn lemma_edge_visible(g: PagedGraph, src: u64, dst: u64, i: int, j: int, a: i64, b: i64)
    requires
        0 <= i < g.out_events_of(src).len(),
        g.out_events_of(src)[i].1.other == Some(dst),
        in_window(a, b, g.out_events_of(src)[i].0),
        0 <= j < g.in_events_of(dst).len(),
        g.in_events_of(dst)[j].1.other == Some(src),
        in_window(a, b, g.in_events_of(dst)[j].0),
    ensures
        g.spec_has_edge(src, dst, a, b),
        g.spec_neighbours(src, Direction::OUT, a, b).contains(dst),
        g.spec_neighbours(dst, Direction::IN, a, b).contains(src),
        g.spec_degree(src, Direction::OUT, a, b) >= 1,
{
    let so = g.out_events_of(src);
    let wo = tc_window(so, a, b);
    crate::tcell::lemma_tc_window_contains(so, a, b, so[i]);
    assert(so.contains(so[i]));
    let k = choose|k: int| 0 <= k < wo.len() && wo[k] == so[i];
    lemma_edge_dsts_contains(wo, k);
    crate::seqs::lemma_dedup_contains(edge_dsts(wo), dst);
    assert(g.spec_neighbours(src, Direction::OUT, a, b).contains(dst));
    let si = g.in_events_of(dst);
    let wi = tc_window(si, a, b);
    crate::tcell::lemma_tc_window_contains(si, a, b, si[j]);
    assert(si.contains(si[j]));
    let k2 = choose|k2: int| 0 <= k2 < wi.len() && wi[k2] == si[j];
    lemma_edge_dsts_contains(wi, k2);
    crate::seqs::lemma_dedup_contains(edge_dsts(wi), src);
    let nb = g.spec_neighbours(src, Direction::OUT, a, b);
    assert(nb.contains(dst));
    let k3 = choose|k3: int| 0 <= k3 < nb.len() && nb[k3] == dst;
}

/// Window composition: restricting a traversal to `[a, b)` and then to
/// `[c, d)` reads exactly what restricting to the intersection
/// `[max(a, c), min(b, d))` reads, for the event logs, the neighbour
/// sets and the degrees alike.
pub proof fn lemma_window_compose(g: PagedGraph, gid: u64, d: Direction, a: i64, b: i64, c: i64, e: i64)
    ensures
        tc_window(g.spec_events(gid, d, a, b), c, e) == g.spec_events(
            gid,
            d,
            crate::seqs::window_meet_start(a, c),
            crate::seqs::window_meet_end(b, e),
        ),
        dedup(edge_dsts(tc_window(g.spec_events(gid, d, a, b), c, e))) == g.spec_neighbours(
            gid,
            d,
            crate::seqs::window_meet_start(a, c),
            crate::seqs::window_meet_end(b, e),
        ),
{
    let ms = crate::seqs::window_meet_start(a, c);
    let me = crate::seqs::window_meet_end(b, e);
    match d {
        Direction::OUT => {
            crate::tcell::lemma_tc_window_compose(g.out_events_of(gid), a, b, c, e);
        },
        Direction::IN => {
            crate::tcell::lemma_tc_window_compose(g.in_events_of(gid), a, b, c, e);
        },
        Direction::BOTH => {
            crate::tcell::lemma_tc_window_concat(
                tc_window(g.out_events_of(gid), a, b),
                tc_window(g.in_events_of(gid), a, b),
                c,
                e,
            );
            crate::tcell::lemma_tc_window_compose(g.out_events_of(gid), a, b, c, e);
            crate::tcell::lemma_tc_window_compose(g.in_events_of(gid), a, b, c, e);
        },
    }
}

/// Reads are idempotent: any two results that a read's contract pins to
/// the same view of a quiescent store are the same sequence.
pub proof fn lemma_reads_idempotent(
    g: PagedGraph,
    gid: u64,
    d: Direction,
    a: i64,
    b: i64,
    r1: Seq<u64>,
    r2: Seq<u64>,
)
    requires
        r1 == g.spec_neighbours(gid, d, a, b),
        r2 == g.spec_neighbours(gid, d, a, b),
    ensures
        r1 == r2,
{
}

/// Temporal index completeness: every written `(triplet, t)` entry is
/// recorded in the temporal index under `t`, and `t` is a key of the
/// index.
pub proof fn lemma_temporal_index_complete(g: PagedGraph, p: usize, k: usize)
    requires
        g.wf(),
        p < g.page_manager.pages@.len(),
        k < g.page_manager.pages@[p as int].entries@.len(),
    ensures
        ti_locs(g.temporal_index@, g.page_manager.pages@[p as int].entries@[k as int].0).contains(
            Location { page: p, slot: k },
        ),
        tc_has_key(g.temporal_index@, g.page_manager.pages@[p as int].entries@[k as int].0),
{
    let pages = g.page_manager.pages@;
    let pi = p as int;
    let ki = k as int;
    let e = pages[pi].entries@[ki];
    assert(ti_locs(g.temporal_index@, e.0).contains(
        Location { page: pi as usize, slot: ki as usize },
    ));
    assert(pi as usize == p && ki as usize == k);
    let t = e.0;
    let i = choose|i: int|
        0 <= i < ti_locs(g.temporal_index@, t).len() && ti_locs(g.temporal_index@, t)[i]
            == Location { page: p, slot: k };
    crate::tindex::lemma_ti_locs_key(g.temporal_index@, t);
}

/// An empty window `[t, t)` (below the unbounded-end sentinel) holds no
/// events, no edges and no neighbours; a vertex still exists in it
/// exactly when it is known and carries a static property.
pub proof fn lemma_empty_window(g: PagedGraph, gid: u64, d: Direction, t: i64)
    requires
        t < i64::MAX,
    ensures
        g.spec_events(gid, d, t, t) == Seq::<(i64, Triplet)>::empty(),
        g.spec_neighbours(gid, d, t, t) == Seq::<u64>::empty(),
        g.spec_has_vertex(gid, t, t) == (g.spec_known(gid)
            && g.vertex_props@[g.spec_lid(gid)].static_view().len() > 0),
{
    crate::tcell::lemma_tc_window_empty(g.out_events_of(gid), t);
    crate::tcell::lemma_tc_window_empty(g.in_events_of(gid), t);
    crate::tcell::lemma_tc_window_empty(g.activity_of(gid), t);
    assert(g.spec_events(gid, d, t, t) =~= Seq::<(i64, Triplet)>::empty());
    assert(edge_dsts(Seq::<(i64, Triplet)>::empty()) =~= Seq::<u64>::empty());
    assert(dedup(Seq::<u64>::empty()) =~= Seq::<u64>::empty());
}

/// The sentinel window `[i64::MIN, i64::MAX)` is the unwindowed view:
/// the traversal reads the full event logs.
pub proof fn lemma_unbounded_window(g: PagedGraph, gid: u64, d: Direction)
    ensures
        g.spec_events(gid, d, i64::MIN, i64::MAX) == match d {
            Direction::OUT => g.out_events_of(gid),
            Direction::IN => g.in_events_of(gid),
            Direction::BOTH => g.out_events_of(gid) + g.in_events_of(gid),
        },
{
    crate::tcell::lemma_tc_window_all(g.out_events_of(gid));
    crate::tcell::lemma_tc_window_all(g.in_events_of(gid));
}

/// A vertex with no out-events has out-degree zero in every window, and
/// its edges are exactly its windowed in-events when the direction reads
/// the in-chain (IN or BOTH) and nothing otherwise.
pub proof fn lemma_only_in_edges(g: PagedGraph, gid: u64, a: i64, b: i64)
    requires
        g.out_events_of(gid) == Seq::<(i64, Triplet)>::empty(),
    ensures
        g.spec_degree(gid, Direction::OUT, a, b) == 0,
        g.spec_events(gid, Direction::OUT, a, b) == Seq::<(i64, Triplet)>::empty(),
        g.spec_events(gid, Direction::BOTH, a, b) == g.spec_events(gid, Direction::IN, a, b),
{
    assert(tc_window(g.out_events_of(gid), a, b) =~= Seq::<(i64, Triplet)>::empty());
    assert(edge_dsts(Seq::<(i64, Triplet)>::empty()) =~= Seq::<u64>::empty());
    assert(dedup(Seq::<u64>::empty()) =~= Seq::<u64>::empty());
    assert(Seq::<(i64, Triplet)>::empty() + tc_window(g.in_events_of(gid), a, b) =~= tc_window(
        g.in_events_of(gid),
        a,
        b,
    ));
}

/// The conservation law: the windowed edge count is the sum over all
/// vertices of the windowed out-degree (each directed pair is counted
/// once, at its source).
pub proof fn lemma_edge_count_conservation(g: PagedGraph, a: i64, b: i64, l: int)
    requires
        0 <= l <= g.n_vertices(),
    ensures
        g.spec_sum_out_degrees(a, b, l) >= 0,
        g.spec_sum_out_degrees(a, b, l) == g.spec_sum_out_degrees(a, b, l - 1) + if l > 0 {
            g.spec_degree(g.logical_to_global@[l - 1], Direction::OUT, a, b)
        } else {
            0int
        },
    decreases l,
{
    if l > 0 {
        lemma_edge_count_conservation(g, a, b, l - 1);
    }
}


impl PagedGraph {
    /// The temporal history of an edge property; histories are shared by
    /// every parallel edge between the pair.
    pub open spec fn spec_edge_history(self, src: u64, dst: u64, name: Seq<char>) -> Seq<
        (i64, Prop),
    > {
        match Self::spec_pair_key(self.edge_pairs@, src, dst) {
            Some(k) => crate::props::history_or_empty(self.edge_props@[k].temporal_view(), name),
            None => Seq::empty(),
        }
    }

    /// The static value of an edge property, if any.
    pub open spec fn spec_edge_static(self, src: u64, dst: u64, name: Seq<char>) -> Option<Prop> {
        match Self::spec_pair_key(self.edge_pairs@, src, dst) {
            Some(k) => crate::props::static_of(self.edge_props@[k].static_view(), name),
            None => None,
        }
    }

    /// Write a temporal edge property `(name, t, value)` for the pair
    /// `(src, dst)`, creating the pair's shared store on first sight.
    pub fn add_edge_property(&mut self, src: u64, dst: u64, name: &String, t: i64, value: Prop)
        -> (r: Result<(), GraphError>)
        requires
            old(self).wf(),
        ensures
            final(self).wf(),
            r is Ok,
            final(self).spec_edge_history(src, dst, name@) == crate::tcell::tc_set(
                old(self).spec_edge_history(src, dst, name@),
                t,
                value,
            ),
            forall|g: u64| #[trigger] final(self).out_events_of(g) == old(self).out_events_of(g),
            forall|g: u64| #[trigger] final(self).in_events_of(g) == old(self).in_events_of(g),
            final(self).temporal_index@ == old(self).temporal_index@,
    {
        let ghost o = *old(self);
        let k = self.ensure_edge_key(src, dst);
        let ghost m = *self;
        proof {
            assert(m.spec_edge_history(src, dst, name@) == o.spec_edge_history(src, dst, name@))
                by {
                if Self::spec_pair_key(o.edge_pairs@, src, dst) is Some {
                    assert(*old(self) == m);
                } else {
                    assert(m.edge_props@[k as int].temporal_view() =~= Seq::<
                        (String, crate::tcell::TimeCell),
                    >::empty());
                }
            }
        }
        let mut st = self.edge_props.remove(k);
        st.add_temporal(name, t, value);
        self.edge_props.insert(k, st);
        proof {
            assert(self.edge_props@ =~= m.edge_props@.update(k as int, self.edge_props@[k as int]));
            assert forall|e: int| 0 <= e < self.edge_props@.len() implies (
            #[trigger] self.edge_props@[e]).wf() by {
                if e != k {
                    assert(self.edge_props@[e] == m.edge_props@[e]);
                }
            }
            assert forall|g: u64| #[trigger]
                final(self).out_events_of(g) == o.out_events_of(g) by {
                assert(final(self).out_events_of(g) == m.out_events_of(g));
                assert(m.out_events_of(g) == o.out_events_of(g));
            }
            assert forall|g: u64| #[trigger]
                final(self).in_events_of(g) == o.in_events_of(g) by {
                assert(final(self).in_events_of(g) == m.in_events_of(g));
                assert(m.in_events_of(g) == o.in_events_of(g));
            }
        }
        Ok(())
    }

    /// Write a write-once static edge property; rewriting is refused
    /// with `StaticPropertyRewrite`.
    pub fn add_edge_static_property(&mut self, src: u64, dst: u64, name: &String, value: Prop)
        -> (r: Result<(), GraphError>)
        requires
            old(self).wf(),
        ensures
            final(self).wf(),
            r is Ok <==> old(self).spec_edge_static(src, dst, name@) is None,
            r is Ok ==> final(self).spec_edge_static(src, dst, name@) == Some(value),
            r is Err ==> final(self).spec_edge_static(src, dst, name@) == old(self).spec_edge_static(src, dst, name@),
            forall|g: u64| #[trigger] final(self).out_events_of(g) == old(self).out_events_of(g),
            forall|g: u64| #[trigger] final(self).in_events_of(g) == old(self).in_events_of(g),
    {
        let ghost o = *old(self);
        let k = self.ensure_edge_key(src, dst);
        let ghost m = *self;
        proof {
            assert(m.spec_edge_static(src, dst, name@) == o.spec_edge_static(src, dst, name@))
                by {
                if Self::spec_pair_key(o.edge_pairs@, src, dst) is Some {
                    assert(*old(self) == m);
                } else {
                    assert(m.edge_props@[k as int].static_view() =~= Seq::<
                        (String, Prop),
                    >::empty());
                }
            }
        }
        let mut st = self.edge_props.remove(k);
        let wrote = st.set_static(name, value);
        self.edge_props.insert(k, st);
        proof {
            assert(self.edge_props@ =~= m.edge_props@.update(k as int, self.edge_props@[k as int]));
            assert forall|e: int| 0 <= e < self.edge_props@.len() implies (
            #[trigger] self.edge_props@[e]).wf() by {
                if e != k {
                    assert(self.edge_props@[e] == m.edge_props@[e]);
                }
            }
            assert forall|g: u64| #[trigger]
                final(self).out_events_of(g) == o.out_events_of(g) by {
                assert(final(self).out_events_of(g) == m.out_events_of(g));
                assert(m.out_events_of(g) == o.out_events_of(g));
            }
            assert forall|g: u64| #[trigger]
                final(self).in_events_of(g) == o.in_events_of(g) by {
                assert(final(self).in_events_of(g) == m.in_events_of(g));
                assert(m.in_events_of(g) == o.in_events_of(g));
            }
        }
        if wrote {
            Ok(())
        } else {
            Err(GraphError::StaticPropertyRewrite)
        }
    }

    /// Find the shared store of an endpoint pair without creating it.
    fn find_edge_key(&self, src: u64, dst: u64) -> (r: Option<usize>)
        requires
            self.wf(),
        ensures
            match r {
                Some(k) => Self::spec_pair_key(self.edge_pairs@, src, dst) == Some(k as int) && k
                    < self.edge_props@.len(),
                None => Self::spec_pair_key(self.edge_pairs@, src, dst) is None,
            },
    {
        let ghost s = self.edge_pairs@;
        proof {
            assert forall|a: int, b: int| 0 <= a < b < s.len() implies s[a] != s[b] by {
                assert(self.edge_pairs@[a] != self.edge_pairs@[b]);
            }
        }
        let n = self.edge_pairs.len();
        let mut i: usize = 0;
        while i < n
            invariant
                i <= n,
                n == s.len(),
                self.edge_pairs@ == s,
                forall|a: int, b: int| 0 <= a < b < s.len() ==> s[a] != s[b],
                n <= self.edge_props@.len(),
                forall|j: int| 0 <= j < i ==> #[trigger] s[j] != (src, dst),
            decreases n - i,
        {
            let pair = self.edge_pairs[i];
            if pair.0 == src && pair.1 == dst {
                proof {
                    assert(s[i as int] == (src, dst));
                    lemma_pair_key_at(s, src, dst, i as int);
                }
                return Some(i);
            }
            proof {
                assert(s[i as int] != (src, dst));
            }
            i = i + 1;
        }
        proof {
            lemma_pair_key_absent(s, src, dst);
        }
        None
    }

    /// The edge property's history inside the window, ascending by time.
    pub fn edge_property_history(&self, src: u64, dst: u64, name: &String, t_start: i64, t_end: i64)
        -> (r: Vec<(i64, Prop)>)
        requires
            self.wf(),
        ensures
            r@ == tc_window(self.spec_edge_history(src, dst, name@), t_start, t_end),
    {
        match self.find_edge_key(src, dst) {
            Some(k) => self.edge_props[k].history_window(name, t_start, t_end),
            None => {
                proof {
                    assert(tc_window(Seq::<(i64, Prop)>::empty(), t_start, t_end) =~= Seq::<
                        (i64, Prop),
                    >::empty());
                }
                Vec::new()
            },
        }
    }

    /// The latest temporal edge property value, falling back to the
    /// static value when `include_static` is set.
    pub fn edge_property(&self, src: u64, dst: u64, name: &String, include_static: bool) -> (r:
        Option<Prop>)
        requires
            self.wf(),
        ensures
            r == if crate::tcell::tc_latest(self.spec_edge_history(src, dst, name@), i64::MAX)
                is Some {
                crate::tcell::tc_latest(self.spec_edge_history(src, dst, name@), i64::MAX)
            } else if include_static {
                self.spec_edge_static(src, dst, name@)
            } else {
                None
            },
    {
        match self.find_edge_key(src, dst) {
            Some(k) => {
                let st = &self.edge_props[k];
                let temporal = st.latest(name, i64::MAX);
                proof {
                    if crate::props::temporal_of(st.temporal_view(), name@) is None {
                        assert(self.spec_edge_history(src, dst, name@) =~= Seq::<
                            (i64, Prop),
                        >::empty());
                    }
                }
                match temporal {
                    Some(v) => Some(v),
                    None => {
                        if include_static {
                            st.get_static(name)
                        } else {
                            None
                        }
                    },
                }
            },
            None => None,
        }
    }

    /// Whether the pair has a temporal edge property of this name.
    pub open spec fn spec_edge_has_temporal(self, src: u64, dst: u64, name: Seq<char>) -> bool {
        match Self::spec_pair_key(self.edge_pairs@, src, dst) {
            Some(k) => crate::props::temporal_of(self.edge_props@[k].temporal_view(), name)
                is Some,
            None => false,
        }
    }

    /// Whether the pair has a temporal edge property of this name, or,
    /// with `include_static`, a static one.
    pub fn has_edge_property(&self, src: u64, dst: u64, name: &String, include_static: bool) -> (r:
        bool)
        requires
            self.wf(),
        ensures
            r == (self.spec_edge_has_temporal(src, dst, name@) || (include_static
                && self.spec_edge_static(src, dst, name@) is Some)),
    {
        match self.find_edge_key(src, dst) {
            Some(k) => {
                let st = &self.edge_props[k];
                if st.has_temporal(name) {
                    true
                } else {
                    include_static && st.has_static(name)
                }
            },
            None => false,
        }
    }

    /// The static edge property value, if any.
    pub fn edge_static_property(&self, src: u64, dst: u64, name: &String) -> (r: Option<Prop>)
        requires
            self.wf(),
        ensures
            r == self.spec_edge_static(src, dst, name@),
    {
        match self.find_edge_key(src, dst) {
            Some(k) => self.edge_props[k].get_static(name),
            None => None,
        }
    }
}

impl PagedGraph {
    /// The shared property-store key of an endpoint pair, if any.
    pub fn edge_key(&self, src: u64, dst: u64) -> (r: Option<usize>)
        requires
            self.wf(),
        ensures
            match r {
                Some(k) => Self::spec_pair_key(self.edge_pairs@, src, dst) == Some(k as int),
                None => Self::spec_pair_key(self.edge_pairs@, src, dst) is None,
            },
    {
        self.find_edge_key(src, dst)
    }
}

/// Every entry of the filtered edge list is an entry of the log, with a
/// destination.
pub proof fn lemma_edge_only_sub(s: Seq<(i64, Triplet)>, k: int)
    requires
        0 <= k < edge_only(s).len(),
    ensures
        s.contains(edge_only(s)[k]),
        edge_only(s)[k].1.other is Some,
    decreases s.len(),
{
    if s.len() == 0 {
    } else {
        let rest = edge_only(s.drop_last());
        if s.last().1.other is Some && k == edge_only(s).len() - 1 {
            assert(edge_only(s)[k] == s.last());
            assert(s[s.len() - 1] == s.last());
        } else {
            assert(edge_only(s)[k] == rest[k]);
            lemma_edge_only_sub(s.drop_last(), k);
            crate::seqs::lemma_unsnoc_contains(s, edge_only(s)[k]);
        }
    }
}


impl PagedGraph {
    /// The vertex's property names: its temporal names in first-write
    /// order, then (when `include_static` is set) its static names.
    pub fn property_names(&self, g_id: u64, include_static: bool) -> (r: Vec<String>)
        requires
            self.wf(),
        ensures
            !self.spec_known(g_id) ==> r@.len() == 0,
            self.spec_known(g_id) ==> {
                let tv = self.vertex_props@[self.spec_lid(g_id)].temporal_view();
                let sv = self.vertex_props@[self.spec_lid(g_id)].static_view();
                &&& r@.len() == tv.len() + if include_static {
                    sv.len()
                } else {
                    0
                }
                &&& (forall|i: int| 0 <= i < tv.len() ==> (#[trigger] r@[i])@ == tv[i].0@)
                &&& (include_static ==> forall|j: int|
                    0 <= j < sv.len() ==> (#[trigger] r@[tv.len() + j])@ == sv[j].0@)
            },
    {
        let lid = match self.global_to_logical_map.get(&g_id) {
            Some(l) => *l,
            None => {
                return Vec::new();
            },
        };
        self.vertex_props[lid].names_list(include_static)
    }

    /// The vertex's current properties: exactly every temporal name with
    /// its latest value, then (when `include_static` is set) exactly
    /// every static-only name with its static value, in slot order.
    pub fn properties(&self, g_id: u64, include_static: bool) -> (r: Vec<(String, Prop)>)
        requires
            self.wf(),
        ensures
            !self.spec_known(g_id) ==> r@.len() == 0,
            self.spec_known(g_id) ==> {
                let tv = self.vertex_props@[self.spec_lid(g_id)].temporal_view();
                let sv = self.vertex_props@[self.spec_lid(g_id)].static_view();
                let combined = crate::props::latest_pairs(tv, tv.len() as int) + if include_static {
                    crate::props::static_only_pairs(tv, sv, sv.len() as int)
                } else {
                    Seq::empty()
                };
                &&& r@.len() == combined.len()
                &&& (forall|i: int|
                    0 <= i < r@.len() ==> (#[trigger] r@[i]).0@ == combined[i].0 && r@[i].1
                        == combined[i].1)
            },
    {
        let lid = match self.global_to_logical_map.get(&g_id) {
            Some(l) => *l,
            None => {
                return Vec::new();
            },
        };
        self.vertex_props[lid].current_pairs(include_static)
    }

    /// Every temporal property of the vertex with its history inside the
    /// window, in first-write order of the names.
    pub fn property_histories(&self, g_id: u64, t_start: i64, t_end: i64) -> (r: Vec<
        (String, Vec<(i64, Prop)>),
    >)
        requires
            self.wf(),
        ensures
            !self.spec_known(g_id) ==> r@.len() == 0,
            self.spec_known(g_id) ==> {
                let tv = self.vertex_props@[self.spec_lid(g_id)].temporal_view();
                &&& r@.len() == tv.len()
                &&& (forall|i: int|
                    0 <= i < tv.len() ==> (#[trigger] r@[i]).0@ == tv[i].0@ && r@[i].1@
                        == tc_window(tv[i].1@, t_start, t_end))
            },
    {
        let lid = match self.global_to_logical_map.get(&g_id) {
            Some(l) => *l,
            None => {
                return Vec::new();
            },
        };
        self.vertex_props[lid].histories_list(t_start, t_end)
    }

    /// The edge pair's property names: temporal first, then (with
    /// `include_static`) static, as for vertices; empty for a pair never
    /// written.
    pub fn edge_property_names(&self, src: u64, dst: u64, include_static: bool) -> (r: Vec<String>)
        requires
            self.wf(),
        ensures
            Self::spec_pair_key(self.edge_pairs@, src, dst) is None ==> r@.len() == 0,
            Self::spec_pair_key(self.edge_pairs@, src, dst) is Some ==> {
                let k = Self::spec_pair_key(self.edge_pairs@, src, dst)->0;
                let tv = self.edge_props@[k].temporal_view();
                let sv = self.edge_props@[k].static_view();
                &&& r@.len() == tv.len() + if include_static {
                    sv.len()
                } else {
                    0
                }
                &&& (forall|i: int| 0 <= i < tv.len() ==> (#[trigger] r@[i])@ == tv[i].0@)
                &&& (include_static ==> forall|j: int|
                    0 <= j < sv.len() ==> (#[trigger] r@[tv.len() + j])@ == sv[j].0@)
            },
    {
        match self.find_edge_key(src, dst) {
            Some(k) => self.edge_props[k].names_list(include_static),
            None => Vec::new(),
        }
    }

    /// The edge pair's current properties, exactly as for vertices;
    /// empty for a pair never written.
    pub fn edge_properties(&self, src: u64, dst: u64, include_static: bool) -> (r: Vec<
        (String, Prop),
    >)
        requires
            self.wf(),
        ensures
            Self::spec_pair_key(self.edge_pairs@, src, dst) is None ==> r@.len() == 0,
            Self::spec_pair_key(self.edge_pairs@, src, dst) is Some ==> {
                let k = Self::spec_pair_key(self.edge_pairs@, src, dst)->0;
                let tv = self.edge_props@[k].temporal_view();
                let sv = self.edge_props@[k].static_view();
                let combined = crate::props::latest_pairs(tv, tv.len() as int) + if include_static {
                    crate::props::static_only_pairs(tv, sv, sv.len() as int)
                } else {
                    Seq::empty()
                };
                &&& r@.len() == combined.len()
                &&& (forall|i: int|
                    0 <= i < r@.len() ==> (#[trigger] r@[i]).0@ == combined[i].0 && r@[i].1
                        == combined[i].1)
            },
    {
        match self.find_edge_key(src, dst) {
            Some(k) => self.edge_props[k].current_pairs(include_static),
            None => Vec::new(),
        }
    }

    /// Every temporal edge property with its history inside the window;
    /// empty for a pair never written.
    pub fn edge_property_histories(&self, src: u64, dst: u64, t_start: i64, t_end: i64) -> (r: Vec<
        (String, Vec<(i64, Prop)>),
    >)
        requires
            self.wf(),
        ensures
            Self::spec_pair_key(self.edge_pairs@, src, dst) is None ==> r@.len() == 0,
            Self::spec_pair_key(self.edge_pairs@, src, dst) is Some ==> {
                let k = Self::spec_pair_key(self.edge_pairs@, src, dst)->0;
                let tv = self.edge_props@[k].temporal_view();
                &&& r@.len() == tv.len()
                &&& (forall|i: int|
                    0 <= i < tv.len() ==> (#[trigger] r@[i]).0@ == tv[i].0@ && r@[i].1@
                        == tc_window(tv[i].1@, t_start, t_end))
            },
    {
        match self.find_edge_key(src, dst) {
            Some(k) => self.edge_props[k].histories_list(t_start, t_end),
            None => Vec::new(),
        }
    }
}

} // verus!
