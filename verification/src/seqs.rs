//! Window semantics and the sequence operations the store's contracts
//! are written in: the half-open window test and first-occurrence
//! deduplication, with the lemmas that relate them.

use vstd::prelude::*;

verus! {

/// The half-open window test `t in [t_start, t_end)`, with the sentinel
/// `i64::MAX` standing for an unbounded upper end (`i64::MIN` as a lower
/// bound is already unbounded on its own).
pub open spec fn in_window(t_start: i64, t_end: i64, t: i64) -> bool {
    t_start <= t && (t < t_end || t_end == i64::MAX)
}

/// Executable form of [`in_window`].
pub fn window_contains(t_start: i64, t_end: i64, t: i64) -> (r: bool)
    ensures
        r == in_window(t_start, t_end, t),
{
    t_start <= t && (t < t_end || t_end == i64::MAX)
}

/// The intersection of two windows: `[max(a, c), min(b, d))`.
pub open spec fn window_meet_start(a: i64, c: i64) -> i64 {
    if a >= c {
        a
    } else {
        c
    }
}

/// See [`window_meet_start`].
pub open spec fn window_meet_end(b: i64, d: i64) -> i64 {
    if b <= d {
        b
    } else {
        d
    }
}

/// A time is in both windows exactly when it is in their intersection:
/// the pointwise form of the window-composition law.
pub proof fn lemma_window_meet(a: i64, b: i64, c: i64, d: i64, t: i64)
    ensures
        (in_window(a, b, t) && in_window(c, d, t)) == in_window(
            window_meet_start(a, c),
            window_meet_end(b, d),
            t,
        ),
{
}

/// First-occurrence deduplication: keeps the first appearance of each
/// value and drops the rest, preserving order.
pub open spec fn dedup(s: Seq<u64>) -> Seq<u64>
    decreases s.len(),
{
    if s.len() == 0 {
        Seq::empty()
    } else {
        let rest = dedup(s.drop_last());
        if rest.contains(s.last()) {
            rest
        } else {
            rest.push(s.last())
        }
    }
}

/// Unfolds `dedup` one step at the pushed end.
pub proof fn lemma_dedup_push(s: Seq<u64>, x: u64)
    ensures
        dedup(s.push(x)) == if dedup(s).contains(x) {
            dedup(s)
        } else {
            dedup(s).push(x)
        },
{
    assert(s.push(x).drop_last() =~= s);
}

/// Pushing a value onto a sequence adds exactly that value.
pub proof fn lemma_push_contains<A>(s: Seq<A>, y: A, x: A)
    ensures
        s.push(y).contains(x) == (s.contains(x) || x == y),
{
    if s.contains(x) {
        let i = choose|i: int| 0 <= i < s.len() && s[i] == x;
        assert(s.push(y)[i] == x);
    }
    if x == y {
        assert(s.push(y)[s.len() as int] == x);
    }
    if s.push(y).contains(x) {
        let i = choose|i: int| 0 <= i < s.push(y).len() && s.push(y)[i] == x;
        if i < s.len() {
            assert(s[i] == x);
        }
    }
}

/// A sequence holds a value exactly when its last element is that value
/// or the rest holds it.
pub proof fn lemma_unsnoc_contains<A>(s: Seq<A>, x: A)
    requires
        s.len() > 0,
    ensures
        s.contains(x) == (s.drop_last().contains(x) || x == s.last()),
{
    assert(s.drop_last().push(s.last()) =~= s);
    lemma_push_contains(s.drop_last(), s.last(), x);
}

/// Deduplication keeps exactly the values of the sequence.
pub proof fn lemma_dedup_contains(s: Seq<u64>, x: u64)
    ensures
        dedup(s).contains(x) == s.contains(x),
    decreases s.len(),
{
    if s.len() == 0 {
    } else {
        let rest = s.drop_last();
        let y = s.last();
        lemma_dedup_contains(rest, x);
        lemma_unsnoc_contains(s, x);
        if !dedup(rest).contains(y) {
            lemma_push_contains(dedup(rest), y, x);
        }
    }
}

/// A deduplicated sequence has no repeated values.
pub open spec fn no_dups(s: Seq<u64>) -> bool {
    forall|i: int, j: int| 0 <= i < j < s.len() ==> s[i] != s[j]
}

/// `dedup` returns a sequence without repeats.
pub proof fn lemma_dedup_no_dups(s: Seq<u64>)
    ensures
        no_dups(dedup(s)),
    decreases s.len(),
{
    if s.len() > 0 {
        lemma_dedup_no_dups(s.drop_last());
        let rest = dedup(s.drop_last());
        if !rest.contains(s.last()) {
            assert forall|i: int, j: int| 0 <= i < j < rest.push(s.last()).len() implies rest.push(
                s.last(),
            )[i] != rest.push(s.last())[j] by {
                if j < rest.len() {
                } else {
                    assert(rest[i] == rest.push(s.last())[i]);
                    assert(!rest.contains(s.last()));
                }
            }
        }
    }
}

/// Pushing appends one element at the end, leaving the prefix intact.
pub proof fn lemma_push_prefix<A>(s: Seq<A>, x: A)
    ensures
        s.push(x).len() == s.len() + 1,
        s.push(x).subrange(0, s.len() as int) == s,
        s.push(x)[s.len() as int] == x,
{
    assert(s.push(x).subrange(0, s.len() as int) =~= s);
}

} // verus!
