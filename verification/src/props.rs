//! The property store of one vertex or one edge pair: a map from
//! property name to its temporal history (a time cell), plus a map of
//! write-once static properties.

use vstd::prelude::*;

use crate::prop::Prop;
use crate::tcell::{tc_latest, tc_set, tc_window, TimeCell};

verus! {

/// The temporal history recorded under `name`, if any.
pub open spec fn temporal_of(s: Seq<(String, TimeCell)>, name: Seq<char>) -> Option<
    Seq<(i64, Prop)>,
>
    decreases s.len(),
{
    if s.len() == 0 {
        None
    } else if s.last().0@ == name {
        Some(s.last().1@)
    } else {
        temporal_of(s.drop_last(), name)
    }
}

/// The static value recorded under `name`, if any.
pub open spec fn static_of(s: Seq<(String, Prop)>, name: Seq<char>) -> Option<Prop>
    decreases s.len(),
{
    if s.len() == 0 {
        None
    } else if s.last().0@ == name {
        Some(s.last().1)
    } else {
        static_of(s.drop_last(), name)
    }
}

/// The history under `name`, or the empty history when none exists.
pub open spec fn history_or_empty(s: Seq<(String, TimeCell)>, name: Seq<char>) -> Seq<(i64, Prop)> {
    match temporal_of(s, name) {
        Some(h) => h,
        None => Seq::empty(),
    }
}

/// Properties of one entity: named temporal histories and write-once
/// static values.
#[derive(Debug)]
pub struct PropertyStore {
    temporal: Vec<(String, TimeCell)>,
    statics: Vec<(String, Prop)>,
}

impl PropertyStore {
    /// The recorded temporal map (name to history pairs, newest-bound
    /// name last).
    pub closed spec fn temporal_view(&self) -> Seq<(String, TimeCell)> {
        self.temporal@
    }

    /// The recorded static map.
    pub closed spec fn static_view(&self) -> Seq<(String, Prop)> {
        self.statics@
    }

    /// Names are unique in both maps and every history is sorted.
    pub open spec fn wf(&self) -> bool {
        &&& forall|i: int, j: int|
            0 <= i < j < self.temporal_view().len() ==> self.temporal_view()[i].0@
                != self.temporal_view()[j].0@
        &&& forall|i: int, j: int|
            0 <= i < j < self.static_view().len() ==> self.static_view()[i].0@
                != self.static_view()[j].0@
        &&& forall|i: int|
            0 <= i < self.temporal_view().len() ==> (#[trigger] self.temporal_view()[i]).1.wf()
    }

    /// An empty store.
    pub fn new() -> (r: Self)
        ensures
            r.temporal_view() == Seq::<(String, TimeCell)>::empty(),
            r.static_view() == Seq::<(String, Prop)>::empty(),
            r.wf(),
    {
        PropertyStore { temporal: Vec::new(), statics: Vec::new() }
    }

    /// Write `(t, v)` into the history of `name`, creating the history
    /// on first sight of the name; every other name is untouched.
    pub fn add_temporal(&mut self, name: &String, t: i64, v: Prop)
        requires
            old(self).wf(),
        ensures
            final(self).wf(),
            temporal_of(final(self).temporal_view(), name@) == Some(
                tc_set(history_or_empty(old(self).temporal_view(), name@), t, v),
            ),
            forall|other: Seq<char>|
                other != name@ ==> temporal_of(final(self).temporal_view(), other) == temporal_of(
                    old(self).temporal_view(),
                    other,
                ),
            final(self).static_view() == old(self).static_view(),
    {
        let ghost s = self.temporal@;
        proof {
            assert forall|a: int, b: int| 0 <= a < b < s.len() implies s[a].0@ != s[b].0@ by {
                assert(self.temporal_view()[a].0@ != self.temporal_view()[b].0@);
            }
        }
        let n = self.temporal.len();
        let mut i: usize = 0;
        while i < n
            invariant
                i <= n,
                n == s.len(),
                old(self).wf(),
                s == old(self).temporal_view(),
                self.temporal@ == s,
                self.statics@ == old(self).static_view(),
                forall|k: int| 0 <= k < i ==> (#[trigger] s[k]).0@ != name@,
            decreases n - i,
        {
            if string_eq(&self.temporal[i].0, name) {
                let mut pair = self.temporal.remove(i);
                pair.1.set(t, v);
                proof {
                    assert(pair.1.wf()) by {
                        assert(s[i as int].1.wf());
                        crate::tcell::lemma_tc_set_sorted(s[i as int].1@, t, v);
                    }
                }
                self.temporal.insert(i, pair);
                proof {
                    let r = self.temporal@;
                    assert(r.len() == s.len());
                    assert(forall|k: int| 0 <= k < s.len() && k != i ==> #[trigger] r[k] == s[k]);
                    assert(r[i as int].0@ == name@ && r[i as int].1@ == tc_set(
                        s[i as int].1@,
                        t,
                        v,
                    ));
                    lemma_temporal_of_at(s, name@, i as int);
                    assert(history_or_empty(s, name@) == s[i as int].1@);
                    lemma_temporal_update(s, r, name@, i as int);
                }
                return ;
            }
            i = i + 1;
        }
        let mut cell = TimeCell::new();
        cell.set(t, v);
        self.temporal.push((name.clone(), cell));
        proof {
            let r = self.temporal@;
            assert(r.last().0@ == name@);
            assert(r.last().1@ == tc_set(Seq::<(i64, Prop)>::empty(), t, v));
            lemma_temporal_absent(s, name@);
            assert(history_or_empty(s, name@) =~= Seq::<(i64, Prop)>::empty());
            assert(r.drop_last() =~= s);
            assert forall|other: Seq<char>|
                other != name@ implies temporal_of(r, other) == temporal_of(s, other) by {}
            assert forall|a: int, b: int| 0 <= a < b < r.len() implies r[a].0@ != r[b].0@ by {
                if b < s.len() {
                    assert(r[a] == s[a] && r[b] == s[b]);
                } else {
                    assert(r[a] == s[a]);
                }
            }
            assert forall|a: int|
                0 <= a < r.len() implies (#[trigger] r[a]).1.wf() by {
                if a < s.len() {
                    assert(r[a] == s[a]);
                } else {
                    crate::tcell::lemma_tc_set_sorted(Seq::<(i64, Prop)>::empty(), t, v);
                }
            }
        }
    }

    /// Write a static property once; a second write to the same name is
    /// refused and changes nothing. Returns whether the write took.
    pub fn set_static(&mut self, name: &String, v: Prop) -> (r: bool)
        requires
            old(self).wf(),
        ensures
            final(self).wf(),
            r == (static_of(old(self).static_view(), name@) is None),
            r ==> static_of(final(self).static_view(), name@) == Some(v) && (forall|
                other: Seq<char>,
            |
                other != name@ ==> static_of(final(self).static_view(), other) == static_of(
                    old(self).static_view(),
                    other,
                )),
            !r ==> final(self).static_view() == old(self).static_view(),
            final(self).temporal_view() == old(self).temporal_view(),
    {
        let ghost s = self.statics@;
        proof {
            assert forall|a: int, b: int| 0 <= a < b < s.len() implies s[a].0@ != s[b].0@ by {
                assert(self.static_view()[a].0@ != self.static_view()[b].0@);
            }
        }
        let n = self.statics.len();
        let mut i: usize = 0;
        while i < n
            invariant
                i <= n,
                n == s.len(),
                old(self).wf(),
                s == old(self).static_view(),
                self.statics@ == s,
                self.temporal@ == old(self).temporal_view(),
                forall|k: int| 0 <= k < i ==> (#[trigger] s[k]).0@ != name@,
            decreases n - i,
        {
            if string_eq(&self.statics[i].0, name) {
                proof {
                    lemma_static_of_at(s, name@, i as int);
                }
                return false;
            }
            i = i + 1;
        }
        proof {
            lemma_static_absent(s, name@);
        }
        self.statics.push((name.clone(), v));
        proof {
            let r = self.statics@;
            assert(r.last().0@ == name@);
            assert(r.drop_last() =~= s);
            assert forall|a: int, b: int| 0 <= a < b < r.len() implies r[a].0@ != r[b].0@ by {
                if b < s.len() {
                    assert(r[a] == s[a] && r[b] == s[b]);
                } else {
                    assert(r[a] == s[a]);
                }
            }
        }
        true
    }

    /// Whether `name` has a temporal history.
    pub fn has_temporal(&self, name: &String) -> (r: bool)
        requires
            self.wf(),
        ensures
            r == (temporal_of(self.temporal_view(), name@) is Some),
    {
        let ghost s = self.temporal@;
        proof {
            assert forall|a: int, b: int| 0 <= a < b < s.len() implies s[a].0@ != s[b].0@ by {
                assert(self.temporal_view()[a].0@ != self.temporal_view()[b].0@);
            }
        }
        let n = self.temporal.len();
        let mut i: usize = 0;
        while i < n
            invariant
                i <= n,
                n == s.len(),
                self.temporal@ == s,
                self.wf(),
                forall|a: int, b: int| 0 <= a < b < s.len() ==> s[a].0@ != s[b].0@,
                forall|k: int| 0 <= k < i ==> (#[trigger] s[k]).0@ != name@,
            decreases n - i,
        {
            if string_eq(&self.temporal[i].0, name) {
                proof {
                    lemma_temporal_of_at(s, name@, i as int);
                }
                return true;
            }
            i = i + 1;
        }
        proof {
            lemma_temporal_absent(s, name@);
        }
        false
    }

    /// Whether `name` has a static value.
    pub fn has_static(&self, name: &String) -> (r: bool)
        requires
            self.wf(),
        ensures
            r == (static_of(self.static_view(), name@) is Some),
    {
        let ghost s = self.statics@;
        proof {
            assert forall|a: int, b: int| 0 <= a < b < s.len() implies s[a].0@ != s[b].0@ by {
                assert(self.static_view()[a].0@ != self.static_view()[b].0@);
            }
        }
        let n = self.statics.len();
        let mut i: usize = 0;
        while i < n
            invariant
                i <= n,
                n == s.len(),
                self.statics@ == s,
                self.wf(),
                forall|a: int, b: int| 0 <= a < b < s.len() ==> s[a].0@ != s[b].0@,
                forall|k: int| 0 <= k < i ==> (#[trigger] s[k]).0@ != name@,
            decreases n - i,
        {
            if string_eq(&self.statics[i].0, name) {
                proof {
                    lemma_static_of_at(s, name@, i as int);
                }
                return true;
            }
            i = i + 1;
        }
        proof {
            lemma_static_absent(s, name@);
        }
        false
    }

    /// Whether any static property exists.
    pub fn has_any_static(&self) -> (r: bool)
        ensures
            r == (self.static_view().len() > 0),
    {
        self.statics.len() > 0
    }

    /// The static value under `name`, if any.
    pub fn get_static(&self, name: &String) -> (r: Option<Prop>)
        requires
            self.wf(),
        ensures
            r == static_of(self.static_view(), name@),
    {
        let ghost s = self.statics@;
        proof {
            assert forall|a: int, b: int| 0 <= a < b < s.len() implies s[a].0@ != s[b].0@ by {
                assert(self.static_view()[a].0@ != self.static_view()[b].0@);
            }
        }
        let n = self.statics.len();
        let mut i: usize = 0;
        while i < n
            invariant
                i <= n,
                n == s.len(),
                self.statics@ == s,
                self.wf(),
                forall|a: int, b: int| 0 <= a < b < s.len() ==> s[a].0@ != s[b].0@,
                forall|k: int| 0 <= k < i ==> (#[trigger] s[k]).0@ != name@,
            decreases n - i,
        {
            if string_eq(&self.statics[i].0, name) {
                proof {
                    lemma_static_of_at(s, name@, i as int);
                }
                return Some(self.statics[i].1.clone());
            }
            i = i + 1;
        }
        proof {
            lemma_static_absent(s, name@);
        }
        None
    }

    /// The latest temporal value of `name` at or before `t`, if any.
    pub fn latest(&self, name: &String, t: i64) -> (r: Option<Prop>)
        requires
            self.wf(),
        ensures
            r == match temporal_of(self.temporal_view(), name@) {
                Some(h) => tc_latest(h, t),
                None => None::<Prop>,
            },
    {
        let ghost s = self.temporal@;
        proof {
            assert forall|a: int, b: int| 0 <= a < b < s.len() implies s[a].0@ != s[b].0@ by {
                assert(self.temporal_view()[a].0@ != self.temporal_view()[b].0@);
            }
        }
        let n = self.temporal.len();
        let mut i: usize = 0;
        while i < n
            invariant
                i <= n,
                n == s.len(),
                self.temporal@ == s,
                self.wf(),
                forall|a: int, b: int| 0 <= a < b < s.len() ==> s[a].0@ != s[b].0@,
                forall|k: int| 0 <= k < i ==> (#[trigger] s[k]).0@ != name@,
            decreases n - i,
        {
            if string_eq(&self.temporal[i].0, name) {
                proof {
                    lemma_temporal_of_at(s, name@, i as int);
                }
                return self.temporal[i].1.latest_at(t);
            }
            i = i + 1;
        }
        proof {
            lemma_temporal_absent(s, name@);
        }
        None
    }

    /// The history of `name` inside the window, in ascending time order;
    /// empty when the name has no history.
    pub fn history_window(&self, name: &String, t_start: i64, t_end: i64) -> (r: Vec<(i64, Prop)>)
        requires
            self.wf(),
        ensures
            r@ == tc_window(history_or_empty(self.temporal_view(), name@), t_start, t_end),
    {
        let ghost s = self.temporal@;
        proof {
            assert forall|a: int, b: int| 0 <= a < b < s.len() implies s[a].0@ != s[b].0@ by {
                assert(self.temporal_view()[a].0@ != self.temporal_view()[b].0@);
            }
        }
        let n = self.temporal.len();
        let mut i: usize = 0;
        while i < n
            invariant
                i <= n,
                n == s.len(),
                self.temporal@ == s,
                self.wf(),
                forall|a: int, b: int| 0 <= a < b < s.len() ==> s[a].0@ != s[b].0@,
                forall|k: int| 0 <= k < i ==> (#[trigger] s[k]).0@ != name@,
            decreases n - i,
        {
            if string_eq(&self.temporal[i].0, name) {
                proof {
                    lemma_temporal_of_at(s, name@, i as int);
                }
                return self.temporal[i].1.iter_range(t_start, t_end);
            }
            i = i + 1;
        }
        proof {
            lemma_temporal_absent(s, name@);
            assert(tc_window(Seq::<(i64, Prop)>::empty(), t_start, t_end) =~= Seq::<
                (i64, Prop),
            >::empty());
        }
        Vec::new()
    }

    /// The temporal property names, in first-write order.
    pub fn temporal_names(&self) -> (r: Vec<String>)
        ensures
            r@.len() == self.temporal_view().len(),
            forall|i: int|
                0 <= i < r@.len() ==> (#[trigger] r@[i])@ == self.temporal_view()[i].0@,
    {
        let n = self.temporal.len();
        let mut r: Vec<String> = Vec::new();
        let mut i: usize = 0;
        while i < n
            invariant
                i <= n,
                n == self.temporal@.len(),
                r@.len() == i,
                forall|k: int|
                    0 <= k < i ==> (#[trigger] r@[k])@ == self.temporal@[k].0@,
            decreases n - i,
        {
            r.push(self.temporal[i].0.clone());
            i = i + 1;
        }
        r
    }

    /// The static property names, in write order.
    pub fn static_names(&self) -> (r: Vec<String>)
        ensures
            r@.len() == self.static_view().len(),
            forall|i: int| 0 <= i < r@.len() ==> (#[trigger] r@[i])@ == self.static_view()[i].0@,
    {
        let n = self.statics.len();
        let mut r: Vec<String> = Vec::new();
        let mut i: usize = 0;
        while i < n
            invariant
                i <= n,
                n == self.statics@.len(),
                r@.len() == i,
                forall|k: int| 0 <= k < i ==> (#[trigger] r@[k])@ == self.statics@[k].0@,
            decreases n - i,
        {
            r.push(self.statics[i].0.clone());
            i = i + 1;
        }
        r
    }
}

/// Exact string comparison through the standard `==`.
fn string_eq(a: &String, b: &String) -> (r: bool)
    ensures
        r == (a@ == b@),
{
    *a == *b
}

/// In a store with unique names, a name found at index `i` resolves to
/// that index's history.
pub proof fn lemma_temporal_of_at(s: Seq<(String, TimeCell)>, name: Seq<char>, i: int)
    requires
        forall|a: int, b: int| 0 <= a < b < s.len() ==> s[a].0@ != s[b].0@,
        0 <= i < s.len(),
        s[i].0@ == name,
    ensures
        temporal_of(s, name) == Some(s[i].1@),
        history_or_empty(s, name) == s[i].1@,
    decreases s.len(),
{
    if i == s.len() - 1 {
        assert(s.last() == s[i]);
    } else {
        assert(s.last().0@ != name);
        assert(forall|j: int| 0 <= j < s.len() - 1 ==> #[trigger] s.drop_last()[j] == s[j]);
        lemma_temporal_of_at(s.drop_last(), name, i);
    }
}

/// A name at no index resolves to nothing.
pub proof fn lemma_temporal_absent(s: Seq<(String, TimeCell)>, name: Seq<char>)
    requires
        forall|k: int| 0 <= k < s.len() ==> (#[trigger] s[k]).0@ != name,
    ensures
        temporal_of(s, name) is None,
        history_or_empty(s, name) == Seq::<(i64, Prop)>::empty(),
    decreases s.len(),
{
    if s.len() > 0 {
        assert(s[s.len() - 1].0@ != name);
        assert(forall|j: int| 0 <= j < s.len() - 1 ==> #[trigger] s.drop_last()[j] == s[j]);
        lemma_temporal_absent(s.drop_last(), name);
    }
}

/// As [`lemma_temporal_of_at`], for static values.
pub proof fn lemma_static_of_at(s: Seq<(String, Prop)>, name: Seq<char>, i: int)
    requires
        forall|a: int, b: int| 0 <= a < b < s.len() ==> s[a].0@ != s[b].0@,
        0 <= i < s.len(),
        s[i].0@ == name,
    ensures
        static_of(s, name) == Some(s[i].1),
    decreases s.len(),
{
    if i == s.len() - 1 {
        assert(s.last() == s[i]);
    } else {
        assert(s.last().0@ != name);
        assert(forall|j: int| 0 <= j < s.len() - 1 ==> #[trigger] s.drop_last()[j] == s[j]);
        lemma_static_of_at(s.drop_last(), name, i);
    }
}

/// As [`lemma_temporal_absent`], for static values.
pub proof fn lemma_static_absent(s: Seq<(String, Prop)>, name: Seq<char>)
    requires
        forall|k: int| 0 <= k < s.len() ==> (#[trigger] s[k]).0@ != name,
    ensures
        static_of(s, name) is None,
    decreases s.len(),
{
    if s.len() > 0 {
        assert(s[s.len() - 1].0@ != name);
        assert(forall|j: int| 0 <= j < s.len() - 1 ==> #[trigger] s.drop_last()[j] == s[j]);
        lemma_static_absent(s.drop_last(), name);
    }
}

/// Replacing the history at the index bound to `name` rebinds `name`
/// alone: lookups of every other name pass through unchanged.
proof fn lemma_temporal_update(
    s: Seq<(String, TimeCell)>,
    r: Seq<(String, TimeCell)>,
    name: Seq<char>,
    i: int,
)
    requires
        forall|a: int, b: int| 0 <= a < b < s.len() ==> s[a].0@ != s[b].0@,
        0 <= i < s.len(),
        s[i].0@ == name,
        r.len() == s.len(),
        forall|k: int| 0 <= k < s.len() && k != i ==> #[trigger] r[k] == s[k],
        r[i].0@ == name,
        r[i].1.wf(),
    ensures
        forall|a: int, b: int| 0 <= a < b < r.len() ==> r[a].0@ != r[b].0@,
        forall|a: int| 0 <= a < r.len() ==> (#[trigger] r[a]).1.wf() == (
        if a == i {
            true
        } else {
            s[a].1.wf()
        }),
        temporal_of(r, name) == Some(r[i].1@),
        forall|other: Seq<char>| other != name ==> temporal_of(r, other) == temporal_of(s, other),
    decreases s.len(),
{
    assert forall|a: int, b: int| 0 <= a < b < r.len() implies r[a].0@ != r[b].0@ by {
        assert(r[a].0@ == s[a].0@);
        assert(r[b].0@ == s[b].0@);
    }
    lemma_temporal_of_at(r, name, i);
    assert forall|other: Seq<char>|
        other != name implies temporal_of(r, other) == temporal_of(s, other) by {
        lemma_temporal_other(s, r, name, i, other);
    }
}

proof fn lemma_temporal_other(
    s: Seq<(String, TimeCell)>,
    r: Seq<(String, TimeCell)>,
    name: Seq<char>,
    i: int,
    other: Seq<char>,
)
    requires
        0 <= i < s.len(),
        s[i].0@ == name,
        r.len() == s.len(),
        forall|k: int| 0 <= k < s.len() && k != i ==> #[trigger] r[k] == s[k],
        r[i].0@ == name,
        other != name,
    ensures
        temporal_of(r, other) == temporal_of(s, other),
    decreases s.len(),
{
    if s.len() == 0 {
    } else {
        assert(r.last() == r[s.len() - 1]);
        assert(s.last() == s[s.len() - 1]);
        assert(forall|j: int| 0 <= j < s.len() - 1 ==> #[trigger] s.drop_last()[j] == s[j]);
        assert(forall|j: int| 0 <= j < r.len() - 1 ==> #[trigger] r.drop_last()[j] == r[j]);
        if i == s.len() - 1 {
            assert(r.last().0@ == name && s.last().0@ == name);
            assert(r.drop_last() =~= s.drop_last());
        } else {
            assert(r.last() == s.last());
            if s.last().0@ == other {
            } else {
                lemma_temporal_other(s.drop_last(), r.drop_last(), name, i, other);
            }
        }
    }
}

impl PropertyStore {
    /// Number of temporal property names recorded.
    pub fn num_temporal(&self) -> (r: usize)
        ensures
            r == self.temporal_view().len(),
    {
        self.temporal.len()
    }

    /// Number of static property names recorded.
    pub fn num_static(&self) -> (r: usize)
        ensures
            r == self.static_view().len(),
    {
        self.statics.len()
    }

    /// The name bound at one temporal slot.
    pub fn entry_name(&self, i: usize) -> (r: String)
        requires
            i < self.temporal_view().len(),
        ensures
            r@ == self.temporal_view()[i as int].0@,
    {
        self.temporal[i].0.clone()
    }

    /// The latest value of one temporal slot.
    pub fn entry_latest(&self, i: usize) -> (r: Option<Prop>)
        requires
            i < self.temporal_view().len(),
        ensures
            r == tc_latest(self.temporal_view()[i as int].1@, i64::MAX),
    {
        self.temporal[i].1.latest_at(i64::MAX)
    }

    /// The windowed history of one temporal slot.
    pub fn entry_history(&self, i: usize, t_start: i64, t_end: i64) -> (r: Vec<(i64, Prop)>)
        requires
            i < self.temporal_view().len(),
        ensures
            r@ == tc_window(self.temporal_view()[i as int].1@, t_start, t_end),
    {
        self.temporal[i].1.iter_range(t_start, t_end)
    }

    /// One static slot: its name and value.
    pub fn static_entry(&self, j: usize) -> (r: (String, Prop))
        requires
            j < self.static_view().len(),
        ensures
            r.0@ == self.static_view()[j as int].0@,
            r.1 == self.static_view()[j as int].1,
    {
        let name = self.statics[j].0.clone();
        let value = self.statics[j].1.clone();
        (name, value)
    }
}

/// The `(name, latest value)` pairs of the first `l` temporal slots that
/// have a latest value, in slot order (names as character sequences).
pub open spec fn latest_pairs(tv: Seq<(String, TimeCell)>, l: int) -> Seq<(Seq<char>, Prop)>
    decreases l,
{
    if l <= 0 {
        Seq::empty()
    } else {
        let rest = latest_pairs(tv, l - 1);
        match tc_latest(tv[l - 1].1@, i64::MAX) {
            Some(v) => rest.push((tv[l - 1].0@, v)),
            None => rest,
        }
    }
}

/// The `(name, value)` pairs of the first `l` static slots whose name
/// has no temporal history, in slot order.
pub open spec fn static_only_pairs(
    tv: Seq<(String, TimeCell)>,
    sv: Seq<(String, Prop)>,
    l: int,
) -> Seq<(Seq<char>, Prop)>
    decreases l,
{
    if l <= 0 {
        Seq::empty()
    } else {
        let rest = static_only_pairs(tv, sv, l - 1);
        if temporal_of(tv, sv[l - 1].0@) is None {
            rest.push((sv[l - 1].0@, sv[l - 1].1))
        } else {
            rest
        }
    }
}

impl PropertyStore {
    /// The property names: every temporal name in first-write order,
    /// then (with `include_static`) every static name in write order.
    pub fn names_list(&self, include_static: bool) -> (r: Vec<String>)
        ensures
            r@.len() == self.temporal_view().len() + if include_static {
                self.static_view().len()
            } else {
                0
            },
            forall|i: int|
                0 <= i < self.temporal_view().len() ==> (#[trigger] r@[i])@
                    == self.temporal_view()[i].0@,
            include_static ==> forall|j: int|
                0 <= j < self.static_view().len() ==> (#[trigger] r@[self.temporal_view().len()
                    + j])@ == self.static_view()[j].0@,
    {
        let mut r = self.temporal_names();
        if include_static {
            let mut sn = self.static_names();
            let ghost before = r@;
            r.append(&mut sn);
            proof {
                assert(forall|i: int| 0 <= i < before.len() ==> #[trigger] r@[i] == before[i]);
            }
        }
        r
    }

    /// The current properties: every temporal name with its latest
    /// value, then (with `include_static`) every static-only name with
    /// its static value — exactly the pairs of [`latest_pairs`] and
    /// [`static_only_pairs`], in order.
    pub fn current_pairs(&self, include_static: bool) -> (r: Vec<(String, Prop)>)
        requires
            self.wf(),
        ensures
            ({
                let combined = latest_pairs(self.temporal_view(), self.temporal_view().len() as int)
                    + if include_static {
                    static_only_pairs(
                        self.temporal_view(),
                        self.static_view(),
                        self.static_view().len() as int,
                    )
                } else {
                    Seq::empty()
                };
                &&& r@.len() == combined.len()
                &&& (forall|i: int|
                    0 <= i < r@.len() ==> (#[trigger] r@[i]).0@ == combined[i].0 && r@[i].1
                        == combined[i].1)
            }),
    {
        let ghost tv = self.temporal_view();
        let ghost sv = self.static_view();
        let mut r: Vec<(String, Prop)> = Vec::new();
        let n = self.temporal.len();
        let mut i: usize = 0;
        while i < n
            invariant
                self.wf(),
                i <= n,
                n == tv.len(),
                tv == self.temporal_view(),
                sv == self.static_view(),
                r@.len() == latest_pairs(tv, i as int).len(),
                forall|j: int|
                    0 <= j < r@.len() ==> (#[trigger] r@[j]).0@ == latest_pairs(tv, i as int)[j].0
                        && r@[j].1 == latest_pairs(tv, i as int)[j].1,
            decreases n - i,
        {
            let name = self.entry_name(i);
            match self.entry_latest(i) {
                Some(v) => {
                    r.push((name, v));
                },
                None => {},
            }
            i = i + 1;
        }
        let ghost full = latest_pairs(tv, tv.len() as int);
        if include_static {
            let m = self.statics.len();
            let mut j: usize = 0;
            while j < m
                invariant
                    self.wf(),
                    j <= m,
                    m == sv.len(),
                    tv == self.temporal_view(),
                    sv == self.static_view(),
                    full == latest_pairs(tv, tv.len() as int),
                    r@.len() == full.len() + static_only_pairs(tv, sv, j as int).len(),
                    forall|idx: int|
                        0 <= idx < full.len() ==> (#[trigger] r@[idx]).0@ == full[idx].0
                            && r@[idx].1 == full[idx].1,
                    forall|idx: int|
                        full.len() <= idx < r@.len() ==> (#[trigger] r@[idx]).0@
                            == static_only_pairs(tv, sv, j as int)[idx - full.len()].0
                            && r@[idx].1 == static_only_pairs(tv, sv, j as int)[idx - full.len()].1,
                decreases m - j,
            {
                let (name, value) = self.static_entry(j);
                if !self.has_temporal(&name) {
                    r.push((name, value));
                }
                j = j + 1;
            }
            proof {
                let combined = full + static_only_pairs(tv, sv, sv.len() as int);
                assert forall|i2: int|
                    0 <= i2 < r@.len() implies (#[trigger] r@[i2]).0@ == combined[i2].0
                    && r@[i2].1 == combined[i2].1 by {
                    if i2 < full.len() {
                    } else {
                        assert(combined[i2] == static_only_pairs(tv, sv, sv.len() as int)[i2
                            - full.len()]);
                    }
                }
            }
        } else {
            proof {
                assert(full + Seq::<(Seq<char>, Prop)>::empty() =~= full);
            }
        }
        r
    }

    /// Every temporal property with its history inside the window, in
    /// first-write order of the names.
    pub fn histories_list(&self, t_start: i64, t_end: i64) -> (r: Vec<(String, Vec<(i64, Prop)>)>)
        requires
            self.wf(),
        ensures
            r@.len() == self.temporal_view().len(),
            forall|i: int|
                0 <= i < r@.len() ==> (#[trigger] r@[i]).0@ == self.temporal_view()[i].0@
                    && r@[i].1@ == tc_window(self.temporal_view()[i].1@, t_start, t_end),
    {
        let ghost tv = self.temporal_view();
        let mut r: Vec<(String, Vec<(i64, Prop)>)> = Vec::new();
        let n = self.temporal.len();
        let mut i: usize = 0;
        while i < n
            invariant
                self.wf(),
                i <= n,
                n == tv.len(),
                tv == self.temporal_view(),
                r@.len() == i,
                forall|k: int|
                    0 <= k < i ==> (#[trigger] r@[k]).0@ == tv[k].0@ && r@[k].1@ == tc_window(
                        tv[k].1@,
                        t_start,
                        t_end,
                    ),
            decreases n - i,
        {
            let name = self.entry_name(i);
            let hist = self.entry_history(i, t_start, t_end);
            r.push((name, hist));
            i = i + 1;
        }
        r
    }
}

} // verus!
