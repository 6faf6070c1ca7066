//! Facts about sequences.
use vstd::prelude::*;

verus! {

/// Filtering one element more appends it or leaves it out.
pub proof fn filter_step<A>(s: Seq<A>, pred: spec_fn(A) -> bool, i: int)
    requires
        0 <= i < s.len(),
    ensures
        s.take(i + 1).filter(pred) == (if pred(s[i]) {
            s.take(i).filter(pred).push(s[i])
        } else {
            s.take(i).filter(pred)
        }),
{
    reveal(Seq::filter);
    assert(s.take(i + 1).drop_last() =~= s.take(i));
}

/// Nothing is left of nothing.
pub proof fn filter_empty<A>(s: Seq<A>, pred: spec_fn(A) -> bool)
    ensures
        s.take(0).filter(pred) == Seq::<A>::empty(),
{
    reveal(Seq::filter);
}

/// An element passes a filter exactly if it was there and satisfies it.
pub proof fn filter_contains_iff<A>(s: Seq<A>, pred: spec_fn(A) -> bool, a: A)
    ensures
        s.filter(pred).contains(a) <==> s.contains(a) && pred(a),
    decreases s.len(),
{
    reveal(Seq::filter);
    if s.len() > 0 {
        let front = s.drop_last();
        filter_contains_iff(front, pred, a);
        push_contains_iff(front, s.last(), a);
        assert(front.push(s.last()) =~= s);
        if pred(s.last()) {
            push_contains_iff(front.filter(pred), s.last(), a);
        }
    }
}

/// An element is in an extended sequence exactly if it is new or was there.
pub proof fn push_contains_iff<A>(s: Seq<A>, last: A, a: A)
    ensures
        s.push(last).contains(a) <==> s.contains(a) || a == last,
{
    let t = s.push(last);
    if s.contains(a) {
        let i = s.index_of(a);
        assert(t[i] == a);
    }
    if a == last {
        assert(t[s.len() as int] == a);
    }
    if t.contains(a) {
        let i = t.index_of(a);
        if i < s.len() {
            assert(s[i] == a);
        }
    }
}

/// Elements that pass a filter stand in the order in which they stood before.
pub proof fn filter_keeps_order<A>(s: Seq<A>, pred: spec_fn(A) -> bool, i: int, j: int) -> (r: (
    int,
    int,
))
    requires
        0 <= i < j < s.filter(pred).len(),
    ensures
        0 <= r.0 < r.1 < s.len(),
        s[r.0] == s.filter(pred)[i],
        s[r.1] == s.filter(pred)[j],
    decreases s.len(),
{
    reveal(Seq::filter);
    if s.len() == 0 {
        (0, 0)
    } else {
        let front = s.drop_last();
        let f = front.filter(pred);
        if j < f.len() {
            filter_keeps_order(front, pred, i, j)
        } else {
            assert(f.contains(f[i]));
            filter_contains_iff(front, pred, f[i]);
            (front.index_of(f[i]), s.len() - 1)
        }
    }
}

} // verus!
