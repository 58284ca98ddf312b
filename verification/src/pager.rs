//! The page manager: a pool of fixed-capacity adjacency pages. Each
//! vertex's adjacency chain is a linked list of pages — a head, then
//! overflow pages — and every overflow link points at a later-allocated
//! page, so chains are acyclic by construction.
//!
//! The spec functions here give the chains their meaning: `chain_seq`
//! is the full entry log of a chain and `chain_tail` its last page; the
//! lemmas say how both respond to an append, to linking a fresh
//! overflow page, and to writes that touch only other chains.

use vstd::prelude::*;

use crate::page::{PageError, TemporalAdjacencySetPage, Triplet, PAGE_SIZE};

verus! {

/// The page manager's error: a location that names no allocated page.
#[derive(Debug, Clone, Copy, PartialEq, Eq, Structural)]
pub enum PageManagerError {
    PageNotFound,
}

/// An opaque handle naming one page entry: the page's index in the pool
/// and the slot within the page.
#[derive(Debug, Clone, Copy, PartialEq, Eq, Hash, Structural)]
pub struct Location {
    pub page: usize,
    pub slot: usize,
}

/// Pool-wide well-formedness: every page is well formed and every
/// overflow link points forward, to a page of the same chain.
pub open spec fn pages_wf(pages: Seq<TemporalAdjacencySetPage>) -> bool {
    forall|i: int|
        0 <= i < pages.len() ==> {
            &&& (#[trigger] pages[i]).wf()
            &&& match pages[i].overflow {
                Some(n) => i < n < pages.len() && pages[n as int].owner == pages[i].owner
                    && pages[n as int].out_chain == pages[i].out_chain,
                None => true,
            }
        }
}

/// The entry log of the chain headed at `head`: the entries of its
/// pages, in chain order, each page's in insertion order.
pub open spec fn chain_seq(pages: Seq<TemporalAdjacencySetPage>, head: int) -> Seq<(i64, Triplet)>
    decreases pages.len() - head,
{
    if 0 <= head < pages.len() && pages_wf(pages) {
        match pages[head].overflow {
            None => pages[head].entries@,
            Some(n) => pages[head].entries@ + chain_seq(pages, n as int),
        }
    } else {
        Seq::empty()
    }
}

/// The index of the last page of the chain headed at `head`.
pub open spec fn chain_tail(pages: Seq<TemporalAdjacencySetPage>, head: int) -> int
    decreases pages.len() - head,
{
    if 0 <= head < pages.len() && pages_wf(pages) {
        match pages[head].overflow {
            None => head,
            Some(n) => chain_tail(pages, n as int),
        }
    } else {
        -1
    }
}

/// The page indices of the chain headed at `head`, in chain order.
pub open spec fn chain_pages(pages: Seq<TemporalAdjacencySetPage>, head: int) -> Seq<usize>
    decreases pages.len() - head,
{
    if 0 <= head < pages.len() && pages_wf(pages) {
        match pages[head].overflow {
            None => seq![head as usize],
            Some(n) => seq![head as usize] + chain_pages(pages, n as int),
        }
    } else {
        Seq::empty()
    }
}

/// The tail of a well-formed chain is a real page of the same chain,
/// with no overflow and room-defining position at or after the head.
pub proof fn lemma_chain_tail_props(pages: Seq<TemporalAdjacencySetPage>, head: int)
    requires
        pages_wf(pages),
        0 <= head < pages.len(),
    ensures
        head <= chain_tail(pages, head) < pages.len(),
        pages[chain_tail(pages, head)].overflow is None,
        pages[chain_tail(pages, head)].owner == pages[head].owner,
        pages[chain_tail(pages, head)].out_chain == pages[head].out_chain,
    decreases pages.len() - head,
{
    match pages[head].overflow {
        None => {},
        Some(n) => {
            lemma_chain_tail_props(pages, n as int);
        },
    }
}

/// A chain is untouched by a write that modifies no page of its owner:
/// if every page owned by the head's chain is the same in both pools
/// (later-allocated pages may differ or be new), the chain's log and
/// tail are the same.
pub proof fn lemma_chain_frame(
    p1: Seq<TemporalAdjacencySetPage>,
    p2: Seq<TemporalAdjacencySetPage>,
    head: int,
)
    requires
        pages_wf(p1),
        pages_wf(p2),
        0 <= head < p1.len(),
        p1.len() <= p2.len(),
        forall|i: int|
            0 <= i < p1.len() && p1[i].owner == p1[head].owner && p1[i].out_chain
                == p1[head].out_chain ==> p2[i] == #[trigger] p1[i],
    ensures
        chain_seq(p2, head) == chain_seq(p1, head),
        chain_tail(p2, head) == chain_tail(p1, head),
    decreases p1.len() - head,
{
    assert(p1[head].owner == p1[head].owner);
    assert(p2[head] == p1[head]);
    match p1[head].overflow {
        None => {},
        Some(n) => {
            lemma_chain_frame(p1, p2, n as int);
        },
    }
}

/// Appending an entry to the tail page appends it to the chain's log:
/// in a pool that differs from the old one only at the chain's tail,
/// whose entries grew by one at the end, the chain's log grew by that
/// entry and its tail is unmoved.
pub proof fn lemma_chain_append(
    p1: Seq<TemporalAdjacencySetPage>,
    p2: Seq<TemporalAdjacencySetPage>,
    head: int,
    e: (i64, Triplet),
)
    requires
        pages_wf(p1),
        pages_wf(p2),
        0 <= head < p1.len(),
        p2.len() == p1.len(),
        forall|i: int| 0 <= i < p1.len() && i != chain_tail(p1, head) ==> p2[i] == #[trigger] p1[i],
        p2[chain_tail(p1, head)].entries@ == p1[chain_tail(p1, head)].entries@.push(e),
        p2[chain_tail(p1, head)].overflow == p1[chain_tail(p1, head)].overflow,
        p2[chain_tail(p1, head)].owner == p1[chain_tail(p1, head)].owner,
        p2[chain_tail(p1, head)].out_chain == p1[chain_tail(p1, head)].out_chain,
    ensures
        chain_seq(p2, head) == chain_seq(p1, head).push(e),
        chain_tail(p2, head) == chain_tail(p1, head),
    decreases p1.len() - head,
{
    lemma_chain_tail_props(p1, head);
    let tl = chain_tail(p1, head);
    match p1[head].overflow {
        None => {
            assert(head == tl);
            assert(chain_seq(p2, head) == p2[head].entries@);
        },
        Some(n) => {
            assert(head != tl) by {
                lemma_chain_tail_props(p1, n as int);
            }
            assert(p2[head] == p1[head]);
            lemma_chain_append(p1, p2, n as int, e);
            assert(p1[head].entries@ + chain_seq(p1, n as int).push(e) =~= (p1[head].entries@
                + chain_seq(p1, n as int)).push(e));
        },
    }
}

/// Linking a fresh, empty overflow page after the tail leaves the
/// chain's log unchanged and moves its tail to the new page: the new
/// pool extends the old by one empty page owned by the same chain, and
/// differs otherwise only in the old tail's overflow now naming it.
pub proof fn lemma_chain_link(
    p1: Seq<TemporalAdjacencySetPage>,
    p2: Seq<TemporalAdjacencySetPage>,
    head: int,
)
    requires
        pages_wf(p1),
        pages_wf(p2),
        0 <= head < p1.len(),
        p1.len() < usize::MAX,
        p2.len() == p1.len() + 1,
        forall|i: int| 0 <= i < p1.len() && i != chain_tail(p1, head) ==> p2[i] == #[trigger] p1[i],
        p2[chain_tail(p1, head)].entries@ == p1[chain_tail(p1, head)].entries@,
        p2[chain_tail(p1, head)].overflow == Some(p1.len() as usize),
        p2[chain_tail(p1, head)].owner == p1[chain_tail(p1, head)].owner,
        p2[chain_tail(p1, head)].out_chain == p1[chain_tail(p1, head)].out_chain,
        p2[p1.len() as int].entries@ == Seq::<(i64, Triplet)>::empty(),
        p2[p1.len() as int].overflow is None,
    ensures
        chain_seq(p2, head) == chain_seq(p1, head),
        chain_tail(p2, head) == p1.len(),
    decreases p1.len() - head,
{
    lemma_chain_tail_props(p1, head);
    let tl = chain_tail(p1, head);
    match p1[head].overflow {
        None => {
            assert(head == tl);
            assert(p2[head].overflow == Some(p1.len() as usize));
            assert(chain_seq(p2, p1.len() as int) == p2[p1.len() as int].entries@);
            assert(chain_tail(p2, p1.len() as int) == p1.len() as int);
            assert(chain_seq(p2, head) == p2[head].entries@ + chain_seq(p2, p1.len() as int));
            assert(chain_tail(p2, head) == chain_tail(p2, p1.len() as int));
            assert(p2[head].entries@ + Seq::<(i64, Triplet)>::empty() =~= p2[head].entries@);
        },
        Some(n) => {
            assert(head != tl) by {
                lemma_chain_tail_props(p1, n as int);
            }
            assert(p2[head] == p1[head]);
            lemma_chain_link(p1, p2, n as int);
        },
    }
}

/// An in-memory page pool backed by a vector; page indices are never
/// reused and overflow links always point at later indices.
#[derive(Debug)]
pub struct VecPageManager {
    pub pages: Vec<TemporalAdjacencySetPage>,
}

impl VecPageManager {
    pub open spec fn wf(&self) -> bool {
        pages_wf(self.pages@)
    }

    /// An empty pool.
    pub fn new() -> (r: Self)
        ensures
            r.pages@ == Seq::<TemporalAdjacencySetPage>::empty(),
            r.wf(),
    {
        VecPageManager { pages: Vec::new() }
    }

    /// Number of pages allocated so far.
    pub fn num_pages(&self) -> (r: usize)
        ensures
            r == self.pages@.len(),
    {
        self.pages.len()
    }

    /// A shared handle to a page, or `None` for an index that names no
    /// allocated page.
    pub fn get_page(&self, p: usize) -> (r: Option<&TemporalAdjacencySetPage>)
        ensures
            match r {
                Some(pg) => p < self.pages@.len() && *pg == self.pages@[p as int],
                None => p >= self.pages@.len(),
            },
    {
        if p < self.pages.len() {
            Some(&self.pages[p])
        } else {
            None
        }
    }

    /// The page indices of the chain headed at `head`, in order.
    pub fn walk_chain(&self, head: usize) -> (r: Vec<usize>)
        requires
            self.wf(),
            head < self.pages@.len(),
        ensures
            r@ == chain_pages(self.pages@, head as int),
    {
        let ghost pages = self.pages@;
        let mut r: Vec<usize> = Vec::new();
        let mut cur: usize = head;
        proof {
            assert(Seq::<usize>::empty() + chain_pages(pages, head as int) =~= chain_pages(
                pages,
                head as int,
            ));
        }
        loop
            invariant
                self.wf(),
                self.pages@ == pages,
                cur < pages.len(),
                chain_pages(pages, head as int) == r@ + chain_pages(pages, cur as int),
            decreases pages.len() - cur,
        {
            r.push(cur);
            match self.pages[cur].overflow {
                None => {
                    proof {
                        assert(chain_pages(pages, cur as int) == seq![cur]);
                        assert(r@.drop_last() + (seq![cur] + Seq::<usize>::empty()) =~= r@.drop_last()
                            + seq![cur]);
                        assert(r@.drop_last() + seq![cur] =~= r@);
                    }
                    return r;
                },
                Some(n) => {
                    proof {
                        assert(chain_pages(pages, cur as int) == seq![cur] + chain_pages(
                            pages,
                            n as int,
                        ));
                        assert(r@.drop_last() + (seq![cur] + chain_pages(pages, n as int)) =~= r@
                            + chain_pages(pages, n as int));
                    }
                    cur = n;
                },
            }
        }
    }

    /// Returns a page of the chain with free capacity: the given tail
    /// itself when it has room, otherwise a freshly allocated page
    /// linked as the tail's overflow; with no tail (an empty chain), a
    /// fresh unlinked page. Allocation cannot fail, so the result is
    /// always `Ok`.
    pub fn find_next_free_page(&mut self, tail: Option<usize>, owner: usize, out_chain: bool) -> (r:
        Result<usize, PageManagerError>)
        requires
            old(self).wf(),
            match tail {
                Some(tl) => tl < old(self).pages@.len() && old(self).pages@[tl as int].overflow
                    is None && old(self).pages@[tl as int].owner == owner && old(self).pages@[tl as int].out_chain == out_chain,
                None => true,
            },
        ensures
            final(self).wf(),
            r is Ok,
            match r {
                Ok(p) => {
                    &&& p < final(self).pages@.len()
                    &&& final(self).pages@[p as int].entries@.len() < PAGE_SIZE
                    &&& final(self).pages@[p as int].overflow is None
                    &&& final(self).pages@[p as int].owner == owner
                    &&& final(self).pages@[p as int].out_chain == out_chain
                    &&& match tail {
                        Some(tl) => {
                            if old(self).pages@[tl as int].entries@.len() < PAGE_SIZE {
                                &&& p == tl
                                &&& final(self).pages@ == old(self).pages@
                            } else {
                                &&& p == old(self).pages@.len()
                                &&& final(self).pages@.len() == old(self).pages@.len() + 1
                                &&& (forall|i: int|
                                    0 <= i < old(self).pages@.len() && i != tl ==> final(self).pages@[i] == #[trigger] old(self).pages@[i])
                                &&& final(self).pages@[tl as int].entries@ == old(self).pages@[tl as int].entries@
                                &&& final(self).pages@[tl as int].overflow == Some(
                                    old(self).pages@.len() as usize,
                                )
                                &&& final(self).pages@[tl as int].owner == owner
                                &&& final(self).pages@[tl as int].out_chain == out_chain
                                &&& final(self).pages@[p as int].entries@ == Seq::<
                                    (i64, Triplet),
                                >::empty()
                            }
                        },
                        None => {
                            &&& p == old(self).pages@.len()
                            &&& final(self).pages@.len() == old(self).pages@.len() + 1
                            &&& (forall|i: int|
                                0 <= i < old(self).pages@.len() ==> final(self).pages@[i]
                                    == #[trigger] old(self).pages@[i])
                            &&& final(self).pages@[p as int].entries@ == Seq::<
                                (i64, Triplet),
                            >::empty()
                        },
                    }
                },
                Err(_) => false,
            },
    {
        match tail {
            Some(tl) => {
                if self.pages[tl].entries.len() < PAGE_SIZE {
                    Ok(tl)
                } else {
                    let fresh = TemporalAdjacencySetPage::new(owner, out_chain);
                    let new_id = self.pages.len();
                    self.pages.push(fresh);
                    let mut tail_page = self.pages.remove(tl);
                    tail_page.overflow = Some(new_id);
                    self.pages.insert(tl, tail_page);
                    proof {
                        assert forall|i: int| 0 <= i < self.pages@.len() implies {
                            &&& (#[trigger] self.pages@[i]).wf()
                            &&& match self.pages@[i].overflow {
                                Some(n) => i < n < self.pages@.len() && self.pages@[n as int].owner
                                    == self.pages@[i].owner && self.pages@[n as int].out_chain
                                    == self.pages@[i].out_chain,
                                None => true,
                            }
                        } by {
                            if i < old(self).pages@.len() && i != tl {
                                assert(self.pages@[i] == old(self).pages@[i]);
                            }
                        }
                    }
                    Ok(new_id)
                }
            },
            None => {
                let fresh = TemporalAdjacencySetPage::new(owner, out_chain);
                let new_id = self.pages.len();
                self.pages.push(fresh);
                proof {
                    assert forall|i: int| 0 <= i < self.pages@.len() implies {
                        &&& (#[trigger] self.pages@[i]).wf()
                        &&& match self.pages@[i].overflow {
                            Some(n) => i < n < self.pages@.len() && self.pages@[n as int].owner
                                == self.pages@[i].owner && self.pages@[n as int].out_chain
                                == self.pages@[i].out_chain,
                            None => true,
                        }
                    } by {
                        if i < old(self).pages@.len() {
                            assert(self.pages@[i] == old(self).pages@[i]);
                        }
                    }
                }
                Ok(new_id)
            },
        }
    }

    /// Append an entry to a page with free capacity, returning the slot
    /// it landed in.
    pub fn append_at(&mut self, p: usize, t: i64, triplet: Triplet) -> (slot: usize)
        requires
            old(self).wf(),
            p < old(self).pages@.len(),
            old(self).pages@[p as int].entries@.len() < PAGE_SIZE,
        ensures
            slot == old(self).pages@[p as int].entries@.len(),
            final(self).wf(),
            final(self).pages@.len() == old(self).pages@.len(),
            forall|i: int|
                0 <= i < old(self).pages@.len() && i != p ==> final(self).pages@[i]
                    == #[trigger] old(self).pages@[i],
            final(self).pages@[p as int].entries@ == old(self).pages@[p as int].entries@.push(
                (t, triplet),
            ),
            final(self).pages@[p as int].overflow == old(self).pages@[p as int].overflow,
            final(self).pages@[p as int].owner == old(self).pages@[p as int].owner,
            final(self).pages@[p as int].out_chain == old(self).pages@[p as int].out_chain,
    {
        let mut page = self.pages.remove(p);
        let slot = page.entries.len();
        let r = page.append(triplet, t);
        proof {
            assert(r is Ok);
        }
        self.pages.insert(p, page);
        proof {
            assert forall|i: int| 0 <= i < self.pages@.len() implies {
                &&& (#[trigger] self.pages@[i]).wf()
                &&& match self.pages@[i].overflow {
                    Some(n) => i < n < self.pages@.len() && self.pages@[n as int].owner
                        == self.pages@[i].owner && self.pages@[n as int].out_chain
                        == self.pages@[i].out_chain,
                    None => true,
                }
            } by {
                if i != p {
                    assert(self.pages@[i] == old(self).pages@[i]);
                }
            }
        }
        slot
    }
}

} // verus!
