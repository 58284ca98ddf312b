//! The time cell: a sparse per-attribute time series, kept as a vector
//! of `(t, value)` pairs with strictly increasing timestamps. Writes at
//! an existing timestamp replace the value; out-of-order writes are
//! reordered into sorted position.

use vstd::prelude::*;

use crate::prop::Prop;
use crate::seqs::{in_window, window_contains};

verus! {

/// Timestamps strictly increase along the sequence.
pub open spec fn strictly_sorted<V>(s: Seq<(i64, V)>) -> bool {
    forall|i: int, j: int| 0 <= i < j < s.len() ==> s[i].0 < s[j].0
}

/// Insertion (or replacement) of `(t, v)` into a timestamp-sorted
/// sequence, keeping it sorted.
pub open spec fn tc_set<V>(s: Seq<(i64, V)>, t: i64, v: V) -> Seq<(i64, V)>
    decreases s.len(),
{
    if s.len() == 0 {
        seq![(t, v)]
    } else if s.last().0 < t {
        s.push((t, v))
    } else if s.last().0 == t {
        s.drop_last().push((t, v))
    } else {
        tc_set(s.drop_last(), t, v).push(s.last())
    }
}

/// The value written at the greatest timestamp `<= t`, if any.
pub open spec fn tc_latest<V>(s: Seq<(i64, V)>, t: i64) -> Option<V>
    decreases s.len(),
{
    if s.len() == 0 {
        None
    } else if s.last().0 <= t {
        Some(s.last().1)
    } else {
        tc_latest(s.drop_last(), t)
    }
}

/// The entries whose timestamp lies in the window, in order.
pub open spec fn tc_window<V>(s: Seq<(i64, V)>, t_start: i64, t_end: i64) -> Seq<(i64, V)>
    decreases s.len(),
{
    if s.len() == 0 {
        Seq::empty()
    } else if in_window(t_start, t_end, s.last().0) {
        tc_window(s.drop_last(), t_start, t_end).push(s.last())
    } else {
        tc_window(s.drop_last(), t_start, t_end)
    }
}

/// Unfolds `tc_window` one step at the pushed end.
pub proof fn lemma_tc_window_push<V>(s: Seq<(i64, V)>, x: (i64, V), a: i64, b: i64)
    ensures
        tc_window(s.push(x), a, b) == if in_window(a, b, x.0) {
            tc_window(s, a, b).push(x)
        } else {
            tc_window(s, a, b)
        },
{
    assert(s.push(x).drop_last() =~= s);
}

/// Restricting to a window distributes over concatenation.
pub proof fn lemma_tc_window_concat<V>(s1: Seq<(i64, V)>, s2: Seq<(i64, V)>, a: i64, b: i64)
    ensures
        tc_window(s1 + s2, a, b) == tc_window(s1, a, b) + tc_window(s2, a, b),
    decreases s2.len(),
{
    if s2.len() == 0 {
        assert(s1 + s2 =~= s1);
        assert(tc_window(s2, a, b) =~= Seq::<(i64, V)>::empty());
        assert(tc_window(s1, a, b) + tc_window(s2, a, b) =~= tc_window(s1, a, b));
    } else {
        assert((s1 + s2).drop_last() =~= s1 + s2.drop_last());
        assert((s1 + s2).last() == s2.last());
        lemma_tc_window_concat(s1, s2.drop_last(), a, b);
        if in_window(a, b, s2.last().0) {
            assert(tc_window(s1, a, b) + tc_window(s2, a, b) =~= (tc_window(s1, a, b)
                + tc_window(s2.drop_last(), a, b)).push(s2.last()));
        }
    }
}

/// The window-composition law, pointwise on a sequence: restricting to
/// `[a, b)` and then to `[c, d)` is restricting to their intersection.
pub proof fn lemma_tc_window_compose<V>(s: Seq<(i64, V)>, a: i64, b: i64, c: i64, d: i64)
    ensures
        tc_window(tc_window(s, a, b), c, d) == tc_window(
            s,
            crate::seqs::window_meet_start(a, c),
            crate::seqs::window_meet_end(b, d),
        ),
    decreases s.len(),
{
    let ms = crate::seqs::window_meet_start(a, c);
    let me = crate::seqs::window_meet_end(b, d);
    if s.len() == 0 {
    } else {
        lemma_tc_window_compose(s.drop_last(), a, b, c, d);
        crate::seqs::lemma_window_meet(a, b, c, d, s.last().0);
        if in_window(a, b, s.last().0) {
            lemma_tc_window_push(tc_window(s.drop_last(), a, b), s.last(), c, d);
            assert(tc_window(s.drop_last(), a, b).push(s.last()).drop_last() =~= tc_window(
                s.drop_last(),
                a,
                b,
            ));
        }
    }
}

/// The sentinel window `[i64::MIN, i64::MAX)` keeps every entry.
pub proof fn lemma_tc_window_all<V>(s: Seq<(i64, V)>)
    ensures
        tc_window(s, i64::MIN, i64::MAX) == s,
    decreases s.len(),
{
    if s.len() == 0 {
        assert(tc_window(s, i64::MIN, i64::MAX) =~= s);
    } else {
        lemma_tc_window_all(s.drop_last());
        assert(tc_window(s, i64::MIN, i64::MAX) =~= s);
    }
}

/// An empty window `[t, t)` keeps nothing (for `t` below the
/// unbounded-end sentinel).
pub proof fn lemma_tc_window_empty<V>(s: Seq<(i64, V)>, t: i64)
    requires
        t < i64::MAX,
    ensures
        tc_window(s, t, t) == Seq::<(i64, V)>::empty(),
    decreases s.len(),
{
    if s.len() == 0 {
        assert(tc_window(s, t, t) =~= Seq::<(i64, V)>::empty());
    } else {
        lemma_tc_window_empty(s.drop_last(), t);
    }
}

/// A windowed sequence holds exactly the entries of the original whose
/// timestamp lies in the window.
pub proof fn lemma_tc_window_contains<V>(s: Seq<(i64, V)>, a: i64, b: i64, x: (i64, V))
    ensures
        tc_window(s, a, b).contains(x) == (s.contains(x) && in_window(a, b, x.0)),
    decreases s.len(),
{
    if s.len() == 0 {
    } else {
        lemma_tc_window_contains(s.drop_last(), a, b, x);
        crate::seqs::lemma_unsnoc_contains(s, x);
        if in_window(a, b, s.last().0) {
            crate::seqs::lemma_push_contains(tc_window(s.drop_last(), a, b), s.last(), x);
        } else {
            if s.contains(x) && in_window(a, b, x.0) {
                assert(x != s.last());
            }
        }
    }
}

/// Whether some entry carries timestamp `t`.
pub open spec fn tc_has_key<V>(s: Seq<(i64, V)>, t: i64) -> bool {
    exists|i: int| 0 <= i < s.len() && s[i].0 == t
}

/// `tc_set` keeps the sequence sorted and updates exactly the keys: the
/// result holds `t` and every old key, and nothing else.
pub proof fn lemma_tc_set_sorted<V>(s: Seq<(i64, V)>, t: i64, v: V)
    requires
        strictly_sorted(s),
    ensures
        strictly_sorted(tc_set(s, t, v)),
        forall|x: i64| #[trigger] tc_has_key(tc_set(s, t, v), x) == (tc_has_key(s, x) || x == t),
    decreases s.len(),
{
    let r = tc_set(s, t, v);
    if s.len() == 0 {
        assert forall|x: i64| tc_has_key(r, x) == (tc_has_key(s, x) || x == t) by {
            if tc_has_key(r, x) {
                let i = choose|i: int| 0 <= i < r.len() && r[i].0 == x;
                assert(i == 0);
            }
            if x == t {
                assert(r[0].0 == x);
            }
        }
    } else if s.last().0 < t {
        assert forall|x: i64| tc_has_key(r, x) == (tc_has_key(s, x) || x == t) by {
            if tc_has_key(r, x) {
                let i = choose|i: int| 0 <= i < r.len() && r[i].0 == x;
                if i < s.len() {
                    assert(s[i].0 == x);
                }
            }
            if tc_has_key(s, x) {
                let i = choose|i: int| 0 <= i < s.len() && s[i].0 == x;
                assert(r[i].0 == x);
            }
            if x == t {
                assert(r[s.len() as int].0 == x);
            }
        }
    } else if s.last().0 == t {
        assert forall|x: i64| tc_has_key(r, x) == (tc_has_key(s, x) || x == t) by {
            if tc_has_key(r, x) {
                let i = choose|i: int| 0 <= i < r.len() && r[i].0 == x;
                if i < s.len() - 1 {
                    assert(s[i].0 == x);
                } else {
                    assert(x == t);
                    assert(s[s.len() - 1].0 == x);
                }
            }
            if tc_has_key(s, x) {
                let i = choose|i: int| 0 <= i < s.len() && s[i].0 == x;
                if i < s.len() - 1 {
                    assert(r[i].0 == x);
                } else {
                    assert(r[s.len() - 1].0 == t);
                    assert(x == t);
                }
            }
            if x == t {
                assert(r[s.len() - 1].0 == x);
            }
        }
    } else {
        lemma_tc_set_sorted(s.drop_last(), t, v);
        let rd = tc_set(s.drop_last(), t, v);
        // every key of rd is an old key below last or t itself, so it is
        // strictly below the appended last key
        assert forall|i: int, j: int| 0 <= i < j < r.len() implies r[i].0 < r[j].0 by {
            if j == r.len() - 1 {
                assert(r[i] == rd[i]);
                assert(tc_has_key(rd, rd[i].0));
                if tc_has_key(s.drop_last(), rd[i].0) {
                    let k = choose|k: int|
                        0 <= k < s.drop_last().len() && s.drop_last()[k].0 == rd[i].0;
                    assert(s[k].0 == rd[i].0);
                    assert(s[k].0 < s.last().0);
                }
            } else {
                assert(r[i] == rd[i] && r[j] == rd[j]);
            }
        }
        assert forall|x: i64| tc_has_key(r, x) == (tc_has_key(s, x) || x == t) by {
            if tc_has_key(r, x) {
                let i = choose|i: int| 0 <= i < r.len() && r[i].0 == x;
                if i < r.len() - 1 {
                    assert(rd[i].0 == x);
                    assert(tc_has_key(rd, x));
                    if tc_has_key(s.drop_last(), x) {
                        let k = choose|k: int|
                            0 <= k < s.drop_last().len() && s.drop_last()[k].0 == x;
                        assert(s[k].0 == x);
                        assert(tc_has_key(s, x));
                    }
                } else {
                    assert(r[i] == s.last());
                    assert(s[s.len() - 1].0 == x);
                    assert(tc_has_key(s, x));
                }
            }
            if tc_has_key(s, x) {
                let i = choose|i: int| 0 <= i < s.len() && s[i].0 == x;
                if i < s.len() - 1 {
                    assert(s.drop_last()[i].0 == x);
                    assert(tc_has_key(s.drop_last(), x));
                    assert(tc_has_key(rd, x));
                    let k = choose|k: int| 0 <= k < rd.len() && rd[k].0 == x;
                    assert(r[k].0 == x);
                    assert(tc_has_key(r, x));
                } else {
                    assert(r[r.len() - 1].0 == x);
                    assert(tc_has_key(r, x));
                }
            }
            if x == t {
                assert(tc_has_key(rd, x));
                let k = choose|k: int| 0 <= k < rd.len() && rd[k].0 == x;
                assert(r[k].0 == x);
                assert(tc_has_key(r, x));
            }
        }
    }
}

/// The property round trip: after writing `(t, v)`, a read at any
/// `t2 >= t` returns `v`, as long as no entry sits strictly between `t`
/// and `t2` (a pre-existing later write would shadow the new one).
pub proof fn lemma_latest_after_set<V>(s: Seq<(i64, V)>, t: i64, v: V, t2: i64)
    requires
        t <= t2,
        forall|i: int| 0 <= i < s.len() ==> !(t < #[trigger] s[i].0 <= t2),
    ensures
        tc_latest(tc_set(s, t, v), t2) == Some(v),
    decreases s.len(),
{
    if s.len() == 0 {
    } else if s.last().0 < t {
    } else if s.last().0 == t {
    } else {
        assert(s[s.len() - 1].0 > t2);
        let rd = tc_set(s.drop_last(), t, v);
        assert(rd.push(s.last()).drop_last() =~= rd);
        lemma_latest_after_set(s.drop_last(), t, v, t2);
    }
}

/// A sparse ordered time series of property values.
#[derive(Debug)]
pub struct TimeCell {
    entries: Vec<(i64, Prop)>,
}

impl View for TimeCell {
    type V = Seq<(i64, Prop)>;

    closed spec fn view(&self) -> Seq<(i64, Prop)> {
        self.entries@
    }
}

impl TimeCell {
    /// The cell's timestamps strictly increase.
    pub open spec fn wf(&self) -> bool {
        strictly_sorted(self@)
    }

    /// An empty time series.
    pub fn new() -> (r: Self)
        ensures
            r@ == Seq::<(i64, Prop)>::empty(),
            r.wf(),
    {
        TimeCell { entries: Vec::new() }
    }

    /// Number of distinct timestamps written.
    pub fn len(&self) -> (r: usize)
        ensures
            r == self@.len(),
    {
        self.entries.len()
    }

    /// Whether nothing has been written yet.
    pub fn is_empty(&self) -> (r: bool)
        ensures
            r == (self@.len() == 0),
    {
        self.entries.is_empty()
    }

    /// Insert or overwrite the value at `t`, reordering an out-of-order
    /// write into sorted position.
    pub fn set(&mut self, t: i64, v: Prop)
        requires
            old(self).wf(),
        ensures
            final(self).wf(),
            final(self)@ == tc_set(old(self)@, t, v),
        decreases old(self)@.len(),
    {
        let ghost s = self.entries@;
        proof {
            lemma_tc_set_sorted(s, t, v);
        }
        let n = self.entries.len();
        if n == 0 {
            self.entries.push((t, v));
            proof {
                assert(self.entries@ =~= tc_set(s, t, v));
            }
        } else {
            let last_t = self.entries[n - 1].0;
            proof {
                assert(s.last() == s[n - 1]);
            }
            if last_t < t {
                self.entries.push((t, v));
            } else if last_t == t {
                self.entries.pop();
                self.entries.push((t, v));
                proof {
                    assert(self.entries@ =~= tc_set(s, t, v));
                }
            } else {
                let e = self.entries.pop().unwrap();
                proof {
                    assert(self.entries@ == s.drop_last());
                    assert(strictly_sorted(s.drop_last())) by {
                        assert(forall|i: int|
                            0 <= i < s.len() - 1 ==> s.drop_last()[i] == #[trigger] s[i]);
                    }
                }
                self.set(t, v);
                self.entries.push(e);
                proof {
                    assert(e == s.last());
                    assert(self.entries@ =~= tc_set(s, t, v));
                }
            }
        }
    }

    /// The value at the greatest timestamp `<= t`, or `None` when no
    /// entry is that old.
    pub fn latest_at(&self, t: i64) -> (r: Option<Prop>)
        ensures
            r == tc_latest(self@, t),
    {
        let ghost s = self.entries@;
        let n = self.entries.len();
        let mut i: usize = n;
        proof {
            assert(s.subrange(0, n as int) =~= s);
        }
        while i > 0
            invariant
                i <= n,
                n == s.len(),
                self.entries@ == s,
                tc_latest(s, t) == tc_latest(s.subrange(0, i as int), t),
            decreases i,
        {
            let ghost prei = s.subrange(0, i as int);
            proof {
                assert(prei.last() == s[i - 1]);
                assert(prei.drop_last() =~= s.subrange(0, i - 1));
            }
            if self.entries[i - 1].0 <= t {
                return Some(self.entries[i - 1].1.clone());
            }
            i = i - 1;
        }
        proof {
            assert(s.subrange(0, 0) =~= Seq::<(i64, Prop)>::empty());
        }
        None
    }

    /// The entries with timestamps in `[t_start, t_end)`, in ascending
    /// order (insertion order coincides with time order here).
    pub fn iter_range(&self, t_start: i64, t_end: i64) -> (r: Vec<(i64, Prop)>)
        ensures
            r@ == tc_window(self@, t_start, t_end),
    {
        let ghost s = self.entries@;
        let n = self.entries.len();
        let mut r: Vec<(i64, Prop)> = Vec::new();
        let mut i: usize = 0;
        proof {
            assert(s.subrange(0, 0) =~= Seq::<(i64, Prop)>::empty());
        }
        while i < n
            invariant
                i <= n,
                n == s.len(),
                self.entries@ == s,
                r@ == tc_window(s.subrange(0, i as int), t_start, t_end),
            decreases n - i,
        {
            let t = self.entries[i].0;
            proof {
                lemma_tc_window_push(s.subrange(0, i as int), s[i as int], t_start, t_end);
                assert(s.subrange(0, i + 1) =~= s.subrange(0, i as int).push(s[i as int]));
            }
            if window_contains(t_start, t_end, t) {
                let v = self.entries[i].1.clone();
                r.push((t, v));
                proof {
                    assert((t, v) == s[i as int]);
                }
            }
            i = i + 1;
        }
        proof {
            assert(s.subrange(0, n as int) =~= s);
        }
        r
    }
}

} // verus!
