//! Stable sorting of records by an order of their own.

use vstd::prelude::*;
use vstd::seq_lib::{to_multiset_build, to_multiset_insert};

verus! {

/// A kind of value with an order in which any two values can be compared;
/// two different values may stand level.
pub trait Sortable: Sized {
    /// `self` may stand before `other`: it comes first in the order, or the
    /// two stand level.
    spec fn not_after(&self, other: &Self) -> bool;

    /// Of two values one may stand before the other, and what may stand
    /// before a value may stand before everything that the value may stand
    /// before.
    proof fn lemma_order(a: &Self, b: &Self, c: &Self)
        ensures
            a.not_after(b) || b.not_after(a),
            a.not_after(b) && b.not_after(c) ==> a.not_after(c),
    ;

    /// Whether `self` may stand before `other`.
    fn comes_not_after(&self, other: &Self) -> (b: bool)
        ensures
            b == self.not_after(other),
    ;
}

/// Every value of `s` may stand before all that follow it.
pub open spec fn is_sorted<T: Sortable>(s: Seq<T>) -> bool {
    forall|i: int, j: int| 0 <= i <= j < s.len() ==> s[i].not_after(&s[j])
}

/// How many values at the front of `s`, one after another, may stand before
/// `x`.
pub open spec fn leading_not_after<T: Sortable>(s: Seq<T>, x: T) -> int
    decreases s.len(),
{
    if s.len() == 0 || !s[0].not_after(&x) {
        0
    } else {
        1 + leading_not_after(s.skip(1), x)
    }
}

/// `s` with `x` put in behind the leading stretch of values that may stand
/// before it.
pub open spec fn placed<T: Sortable>(s: Seq<T>, x: T) -> Seq<T> {
    s.insert(leading_not_after(s, x), x)
}

/// The values of `s` in order; values that stand level stay in the order in
/// which `s` has them.
pub open spec fn stable_sorted<T: Sortable>(s: Seq<T>) -> Seq<T>
    decreases s.len(),
{
    if s.len() == 0 {
        s
    } else {
        placed(stable_sorted(s.drop_last()), s.last())
    }
}

/// The leading stretch is a front part of the sequence, every value in it
/// may stand before `x`, and the value behind it, if any, may not.
pub proof fn lemma_leading_not_after<T: Sortable>(s: Seq<T>, x: T)
    ensures
        0 <= leading_not_after(s, x) <= s.len(),
        forall|i: int| 0 <= i < leading_not_after(s, x) ==> (#[trigger] s[i]).not_after(&x),
        leading_not_after(s, x) < s.len() ==> !s[leading_not_after(s, x)].not_after(&x),
    decreases s.len(),
{
    if s.len() == 0 || !s[0].not_after(&x) {
    } else {
        let rest = s.skip(1);
        lemma_leading_not_after(rest, x);
        let p = leading_not_after(rest, x);
        assert forall|i: int| 0 <= i < p + 1 implies (#[trigger] s[i]).not_after(&x) by {
            if i > 0 {
                assert(rest[i - 1] == s[i]);
            }
        }
        if p + 1 < s.len() {
            assert(rest[p] == s[p + 1]);
        }
    }
}

/// Placing a value into a sorted sequence leaves it sorted and adds just that
/// value.
pub proof fn lemma_placed<T: Sortable>(s: Seq<T>, x: T)
    requires
        is_sorted(s),
    ensures
        is_sorted(placed(s, x)),
        placed(s, x).len() == s.len() + 1,
        placed(s, x).to_multiset() == s.to_multiset().insert(x),
{
    let p = leading_not_after(s, x);
    lemma_leading_not_after(s, x);
    let r = placed(s, x);
    to_multiset_insert(s, p, x);
    assert forall|i: int, j: int| 0 <= i <= j < r.len() implies r[i].not_after(&r[j]) by {
        if j < p {
            assert(r[i] == s[i] && r[j] == s[j]);
        } else if j == p {
            if i < p {
                assert(r[i] == s[i]);
            } else {
                T::lemma_order(&x, &x, &x);
            }
        } else {
            assert(r[j] == s[j - 1]);
            assert(s[p].not_after(&s[j - 1]));
            T::lemma_order(&x, &s[p], &s[j - 1]);
            if i < p {
                assert(r[i] == s[i]);
                T::lemma_order(&s[i], &x, &s[j - 1]);
            } else if i > p {
                assert(r[i] == s[i - 1]);
            }
        }
    }
}

/// The sorted form of `s` is sorted, and holds the values of `s`, each as
/// often as `s` does.
pub proof fn lemma_stable_sorted<T: Sortable>(s: Seq<T>)
    ensures
        is_sorted(stable_sorted(s)),
        stable_sorted(s).len() == s.len(),
        stable_sorted(s).to_multiset() == s.to_multiset(),
    decreases s.len(),
{
    if s.len() > 0 {
        let head = s.drop_last();
        lemma_stable_sorted(head);
        lemma_placed(stable_sorted(head), s.last());
        to_multiset_build(head, s.last());
        assert(head.push(s.last()) =~= s);
    }
}

/// Puts `x` into the vector `v`, behind the leading stretch of values that
/// may stand before it.
pub fn place<T: Sortable>(v: &mut Vec<T>, x: T)
    ensures
        final(v)@ == placed(old(v)@, x),
{
    let mut pos: usize = 0;
    let ghost s = v@;
    proof {
        assert(s.skip(0) =~= s);
    }
    while pos < v.len() && v[pos].comes_not_after(&x)
        invariant
            v@ == s,
            0 <= pos <= v.len(),
            leading_not_after(s, x) == pos + leading_not_after(s.skip(pos as int), x),
        decreases v.len() - pos,
    {
        proof {
            assert(s.skip(pos as int)[0] == s[pos as int]);
            assert(s.skip(pos as int).skip(1) =~= s.skip(pos + 1));
        }
        pos = pos + 1;
    }
    proof {
        if pos < v.len() {
            assert(s.skip(pos as int)[0] == s[pos as int]);
        }
    }
    v.insert(pos, x);
}

/// Sorts the values; values that stand level keep their order.
pub fn stable_sort<T: Sortable>(v: Vec<T>) -> (r: Vec<T>)
    ensures
        r@ == stable_sorted(v@),
        is_sorted(r@),
        r@.len() == v@.len(),
        r@.to_multiset() == v@.to_multiset(),
{
    let ghost s = v@;
    let mut rest = v;
    let mut out: Vec<T> = Vec::new();
    let ghost mut done: int = 0;
    proof {
        assert(s.take(0) =~= Seq::<T>::empty());
        assert(s.skip(0) =~= s);
    }
    while rest.len() > 0
        invariant
            0 <= done <= s.len(),
            rest@ == s.skip(done),
            out@ == stable_sorted(s.take(done)),
        decreases rest.len(),
    {
        let x = rest.remove(0);
        proof {
            assert(x == s[done]);
            assert(s.take(done + 1).drop_last() =~= s.take(done));
            assert(s.take(done + 1).last() == s[done]);
            assert(rest@ =~= s.skip(done + 1));
        }
        place(&mut out, x);
        proof {
            done = done + 1;
        }
    }
    proof {
        assert(s.take(done) =~= s);
        lemma_stable_sorted(s);
    }
    out
}

} // verus!
