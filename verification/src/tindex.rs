//! The temporal index: an ordered map from timestamp to every page
//! entry written at that timestamp, kept as a vector of
//! `(t, locations)` pairs with strictly increasing timestamps.

use vstd::prelude::*;

use crate::pager::Location;
use crate::tcell::{strictly_sorted, tc_has_key};

verus! {

/// The locations recorded at timestamp `t` (empty when `t` is no key).
pub open spec fn ti_locs(s: Seq<(i64, Vec<Location>)>, t: i64) -> Seq<Location>
    decreases s.len(),
{
    if s.len() == 0 {
        Seq::empty()
    } else if s.last().0 == t {
        s.last().1@
    } else {
        ti_locs(s.drop_last(), t)
    }
}

/// A timestamp with recorded locations is a key of the index.
pub proof fn lemma_ti_locs_key(s: Seq<(i64, Vec<Location>)>, t: i64)
    requires
        ti_locs(s, t).len() > 0,
    ensures
        tc_has_key(s, t),
    decreases s.len(),
{
    if s.len() == 0 {
    } else if s.last().0 == t {
        assert(s[s.len() - 1].0 == t);
    } else {
        lemma_ti_locs_key(s.drop_last(), t);
        let i = choose|i: int| 0 <= i < s.drop_last().len() && s.drop_last()[i].0 == t;
        assert(s[i].0 == t);
    }
}

/// An ordered timestamp-to-locations index.
#[derive(Debug)]
pub struct TimeIndex {
    entries: Vec<(i64, Vec<Location>)>,
}

impl View for TimeIndex {
    type V = Seq<(i64, Vec<Location>)>;

    closed spec fn view(&self) -> Seq<(i64, Vec<Location>)> {
        self.entries@
    }
}

impl TimeIndex {
    /// Keys strictly increase and every key records at least one
    /// location.
    pub open spec fn wf(&self) -> bool {
        &&& strictly_sorted(self@)
        &&& forall|i: int| 0 <= i < self@.len() ==> (#[trigger] self@[i]).1@.len() > 0
    }

    /// An empty index.
    pub fn new() -> (r: Self)
        ensures
            r@ == Seq::<(i64, Vec<Location>)>::empty(),
            r.wf(),
    {
        TimeIndex { entries: Vec::new() }
    }

    /// Record one more location under timestamp `t`; locations at every
    /// other timestamp are untouched.
    pub fn add(&mut self, t: i64, loc: Location)
        requires
            old(self).wf(),
        ensures
            final(self).wf(),
            ti_locs(final(self)@, t) == ti_locs(old(self)@, t).push(loc),
            forall|x: i64| x != t ==> ti_locs(final(self)@, x) == ti_locs(old(self)@, x),
            final(self)@.len() > 0,
            forall|x: i64| #[trigger] tc_has_key(final(self)@, x) == (tc_has_key(old(self)@, x) || x
                == t),
            final(self)@.len() >= old(self)@.len(),
            final(self)@[0].0 == if old(self)@.len() == 0 || t < old(self)@[0].0 {
                t
            } else {
                old(self)@[0].0
            },
        decreases old(self)@.len(),
    {
        let ghost s = self.entries@;
        let n = self.entries.len();
        if n == 0 {
            let mut v: Vec<Location> = Vec::new();
            v.push(loc);
            self.entries.push((t, v));
            proof {
                lemma_add_post_base(s, self.entries@, t, loc);
            }
        } else {
            let last_t = self.entries[n - 1].0;
            proof {
                assert(s.last() == s[n - 1]);
            }
            if last_t < t {
                let mut v: Vec<Location> = Vec::new();
                v.push(loc);
                self.entries.push((t, v));
                proof {
                    lemma_add_post_append(s, self.entries@, t, loc);
                }
            } else if last_t == t {
                let mut e = self.entries.pop().unwrap();
                e.1.push(loc);
                self.entries.push(e);
                proof {
                    lemma_add_post_same(s, self.entries@, t, loc);
                }
            } else {
                let e = self.entries.pop().unwrap();
                proof {
                    assert(self.entries@ == s.drop_last());
                    assert(forall|i: int|
                        0 <= i < s.len() - 1 ==> #[trigger] s.drop_last()[i] == s[i]);
                }
                self.add(t, loc);
                let ghost mid = self.entries@;
                self.entries.push(e);
                proof {
                    lemma_add_post_recurse(s, mid, self.entries@, t, loc);
                }
            }
        }
    }

    /// The smallest timestamp in the index, or `None` when it is empty.
    pub fn first_time(&self) -> (r: Option<i64>)
        ensures
            match r {
                None => self@.len() == 0,
                Some(k) => self@.len() > 0 && k == self@[0].0,
            },
    {
        if self.entries.len() == 0 {
            None
        } else {
            Some(self.entries[0].0)
        }
    }

    /// The largest timestamp in the index, or `None` when it is empty.
    pub fn last_time(&self) -> (r: Option<i64>)
        ensures
            match r {
                None => self@.len() == 0,
                Some(k) => self@.len() > 0 && k == self@[self@.len() - 1].0,
            },
    {
        if self.entries.len() == 0 {
            None
        } else {
            Some(self.entries[self.entries.len() - 1].0)
        }
    }
}

proof fn lemma_add_post_base(s: Seq<(i64, Vec<Location>)>, r: Seq<(i64, Vec<Location>)>, t: i64, loc: Location)
    requires
        s.len() == 0,
        r.len() == 1,
        r[0].0 == t,
        r[0].1@ == seq![loc],
    ensures
        strictly_sorted(r),
        ti_locs(r, t) == ti_locs(s, t).push(loc),
        forall|x: i64| x != t ==> ti_locs(r, x) == ti_locs(s, x),
        forall|x: i64| #[trigger] tc_has_key(r, x) == (tc_has_key(s, x) || x == t),
{
    assert(r.last() == r[0]);
    assert(ti_locs(s, t).push(loc) =~= seq![loc]);
    assert forall|x: i64| x != t implies ti_locs(r, x) == ti_locs(s, x) by {
        assert(r.drop_last() =~= Seq::<(i64, Vec<Location>)>::empty());
        assert(ti_locs(r.drop_last(), x) == Seq::<Location>::empty());
        assert(ti_locs(s, x) == Seq::<Location>::empty());
    }
    assert forall|x: i64| #[trigger] tc_has_key(r, x) == (tc_has_key(s, x) || x == t) by {
        if tc_has_key(r, x) {
            let i = choose|i: int| 0 <= i < r.len() && r[i].0 == x;
            assert(i == 0);
        }
        if x == t {
            assert(r[0].0 == x);
        }
    }
}

proof fn lemma_add_post_append(s: Seq<(i64, Vec<Location>)>, r: Seq<(i64, Vec<Location>)>, t: i64, loc: Location)
    requires
        strictly_sorted(s),
        s.len() > 0,
        s.last().0 < t,
        r == s.push((t, (r.last().1))),
        r.last().1@ == seq![loc],
    ensures
        strictly_sorted(r),
        ti_locs(r, t) == ti_locs(s, t).push(loc),
        forall|x: i64| x != t ==> ti_locs(r, x) == ti_locs(s, x),
        forall|x: i64| #[trigger] tc_has_key(r, x) == (tc_has_key(s, x) || x == t),
{
    assert(r.last() == r[r.len() - 1]);
    assert(r.drop_last() =~= s);
    assert(ti_locs(s, t) =~= Seq::<Location>::empty()) by {
        lemma_ti_locs_high(s, t);
    }
    assert(ti_locs(r, t) == r.last().1@);
    assert(ti_locs(s, t).push(loc) =~= seq![loc]);
    assert forall|a: int, b: int| 0 <= a < b < r.len() implies r[a].0 < r[b].0 by {
        if b < s.len() {
            assert(r[a] == s[a] && r[b] == s[b]);
        } else {
            assert(r[a] == s[a]);
            assert(s[a].0 <= s[s.len() - 1].0);
        }
    }
    assert forall|x: i64| #[trigger] tc_has_key(r, x) == (tc_has_key(s, x) || x == t) by {
        if tc_has_key(r, x) {
            let i = choose|i: int| 0 <= i < r.len() && r[i].0 == x;
            if i < s.len() {
                assert(s[i].0 == x);
            }
        }
        if tc_has_key(s, x) {
            let i = choose|i: int| 0 <= i < s.len() && s[i].0 == x;
            assert(r[i].0 == x);
        }
        if x == t {
            assert(r[r.len() - 1].0 == x);
        }
    }
}

/// A timestamp above every key has no locations.
proof fn lemma_ti_locs_high(s: Seq<(i64, Vec<Location>)>, t: i64)
    requires
        forall|i: int| 0 <= i < s.len() ==> (#[trigger] s[i]).0 != t,
    ensures
        ti_locs(s, t) == Seq::<Location>::empty(),
    decreases s.len(),
{
    if s.len() > 0 {
        assert(s[s.len() - 1].0 != t);
        assert(forall|i: int| 0 <= i < s.len() - 1 ==> #[trigger] s.drop_last()[i] == s[i]);
        lemma_ti_locs_high(s.drop_last(), t);
    }
}

proof fn lemma_add_post_same(s: Seq<(i64, Vec<Location>)>, r: Seq<(i64, Vec<Location>)>, t: i64, loc: Location)
    requires
        strictly_sorted(s),
        s.len() > 0,
        s.last().0 == t,
        r.len() == s.len(),
        forall|i: int| 0 <= i < s.len() - 1 ==> #[trigger] r[i] == s[i],
        r[r.len() - 1].0 == t,
        r[r.len() - 1].1@ == s.last().1@.push(loc),
    ensures
        strictly_sorted(r),
        ti_locs(r, t) == ti_locs(s, t).push(loc),
        forall|x: i64| x != t ==> ti_locs(r, x) == ti_locs(s, x),
        forall|x: i64| #[trigger] tc_has_key(r, x) == (tc_has_key(s, x) || x == t),
{
    assert(r.last() == r[r.len() - 1]);
    assert(s.last() == s[s.len() - 1]);
    assert(ti_locs(r, t) == r.last().1@);
    assert forall|a: int, b: int| 0 <= a < b < r.len() implies r[a].0 < r[b].0 by {
        assert(r[a].0 == s[a].0);
        assert(r[b].0 == s[b].0);
    }
    assert forall|x: i64| x != t implies ti_locs(r, x) == ti_locs(s, x) by {
        assert(r.drop_last() =~= s.drop_last());
    }
    assert forall|x: i64| #[trigger] tc_has_key(r, x) == (tc_has_key(s, x) || x == t) by {
        if tc_has_key(r, x) {
            let i = choose|i: int| 0 <= i < r.len() && r[i].0 == x;
            assert(s[i].0 == x);
        }
        if tc_has_key(s, x) {
            let i = choose|i: int| 0 <= i < s.len() && s[i].0 == x;
            assert(r[i].0 == x);
        }
        if x == t {
            assert(r[r.len() - 1].0 == x);
        }
    }
}

proof fn lemma_add_post_recurse(s: Seq<(i64, Vec<Location>)>, mid: Seq<(i64, Vec<Location>)>, r: Seq<(i64, Vec<Location>)>, t: i64, loc: Location)
    requires
        strictly_sorted(s),
        s.len() > 0,
        s.last().0 > t,
        strictly_sorted(mid),
        ti_locs(mid, t) == ti_locs(s.drop_last(), t).push(loc),
        forall|x: i64| x != t ==> ti_locs(mid, x) == ti_locs(s.drop_last(), x),
        forall|x: i64| #[trigger] tc_has_key(mid, x) == (tc_has_key(s.drop_last(), x) || x == t),
        r == mid.push(s.last()),
    ensures
        strictly_sorted(r),
        ti_locs(r, t) == ti_locs(s, t).push(loc),
        forall|x: i64| x != t ==> ti_locs(r, x) == ti_locs(s, x),
        forall|x: i64| #[trigger] tc_has_key(r, x) == (tc_has_key(s, x) || x == t),
{
    assert(r.last() == s.last());
    assert(r.drop_last() =~= mid);
    assert(s.drop_last().push(s.last()) =~= s);
    assert forall|a: int, b: int| 0 <= a < b < r.len() implies r[a].0 < r[b].0 by {
        if b == r.len() - 1 {
            assert(r[a] == mid[a]);
            assert(tc_has_key(mid, mid[a].0)) by {
                assert(mid[a].0 == mid[a].0);
            }
            if tc_has_key(s.drop_last(), mid[a].0) {
                let k = choose|k: int|
                    0 <= k < s.drop_last().len() && s.drop_last()[k].0 == mid[a].0;
                assert(s[k].0 == mid[a].0);
                assert(s[k].0 < s[s.len() - 1].0);
            }
        } else {
            assert(r[a] == mid[a] && r[b] == mid[b]);
        }
    }
    assert forall|x: i64| x != t implies ti_locs(r, x) == ti_locs(s, x) by {
        if x == s.last().0 {
        } else {
            assert(ti_locs(r, x) == ti_locs(mid, x));
            assert(ti_locs(s, x) == ti_locs(s.drop_last(), x));
        }
    }
    assert(ti_locs(r, t) == ti_locs(mid, t));
    assert(ti_locs(s, t) == ti_locs(s.drop_last(), t));
    assert forall|x: i64| #[trigger] tc_has_key(r, x) == (tc_has_key(s, x) || x == t) by {
        crate::seqs::lemma_push_contains(mid, s.last(), (r[r.len() - 1]));
        if tc_has_key(r, x) {
            let i = choose|i: int| 0 <= i < r.len() && r[i].0 == x;
            if i < r.len() - 1 {
                assert(mid[i].0 == x);
                assert(tc_has_key(mid, x));
                if tc_has_key(s.drop_last(), x) {
                    let k = choose|k: int|
                        0 <= k < s.drop_last().len() && s.drop_last()[k].0 == x;
                    assert(s[k].0 == x);
                    assert(tc_has_key(s, x));
                }
            } else {
                assert(s[s.len() - 1].0 == x);
                assert(tc_has_key(s, x));
            }
        }
        if tc_has_key(s, x) {
            let i = choose|i: int| 0 <= i < s.len() && s[i].0 == x;
            if i < s.len() - 1 {
                assert(s.drop_last()[i].0 == x);
                assert(tc_has_key(s.drop_last(), x));
                assert(tc_has_key(mid, x));
                let k = choose|k: int| 0 <= k < mid.len() && mid[k].0 == x;
                assert(r[k].0 == x);
                assert(tc_has_key(r, x));
            } else {
                assert(r[r.len() - 1].0 == x);
                assert(tc_has_key(r, x));
            }
        }
        if x == t {
            assert(tc_has_key(mid, x));
            let k = choose|k: int| 0 <= k < mid.len() && mid[k].0 == x;
            assert(r[k].0 == x);
            assert(tc_has_key(r, x));
        }
    }
}

} // verus!
