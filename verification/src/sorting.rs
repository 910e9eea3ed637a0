//! Sorting: a list in an order of its things, in which those of the same rank keep their places.
use vstd::prelude::*;

verus! {

/// What has a rank among its kind.
pub trait Ranked: Sized {
    spec fn precedes(self, other: Self) -> bool;

    /// Nothing comes before itself, and the order is transitive.
    proof fn law_precedes(a: Self, b: Self, c: Self)
        ensures
            !a.precedes(a),
            a.precedes(b) && b.precedes(c) ==> a.precedes(c),
    ;

    fn does_precede(&self, other: &Self) -> (r: bool)
        ensures
            r == self.precedes(*other),
    ;
}

/// Where something goes among ordered things from `i` on: before the first that comes behind it.
pub open spec fn slot_from<T: Ranked>(v: Seq<T>, x: T, i: int) -> int
    decreases v.len() - i,
{
    if i < 0 || i >= v.len() || x.precedes(v[i]) {
        i
    } else {
        slot_from(v, x, i + 1)
    }
}

/// The first `n` things in their order. Those of the same rank stay as they stand.
pub open spec fn in_order<T: Ranked>(v: Seq<T>, n: int) -> Seq<T>
    decreases n,
{
    if n <= 0 || n > v.len() {
        seq![]
    } else {
        let done = in_order(v, n - 1);
        done.insert(slot_from(done, v[n - 1], 0), v[n - 1])
    }
}

/// Nothing comes before what stands in front of it.
pub open spec fn ordered<T: Ranked>(v: Seq<T>) -> bool {
    forall|i: int, j: int|
        0 <= i < j < v.len() ==> !(#[trigger] v[j]).precedes(#[trigger] v[i])
}

proof fn lemma_slot<T: Ranked>(v: Seq<T>, x: T, i: int)
    requires
        0 <= i <= v.len(),
    ensures
        i <= slot_from(v, x, i) <= v.len(),
        forall|k: int|
            i <= k < slot_from(v, x, i) ==> !x.precedes(#[trigger] v[k]),
        slot_from(v, x, i) < v.len() ==> x.precedes(v[slot_from(v, x, i)]),
    decreases v.len() - i,
{
    if i < v.len() && !x.precedes(v[i]) {
        lemma_slot(v, x, i + 1);
    }
}

/// A sorted list is in order, and nothing is lost or added.
pub proof fn law_sorted<T: Ranked>(v: Seq<T>, n: int)
    requires
        0 <= n <= v.len(),
    ensures
        ordered(in_order(v, n)),
        in_order(v, n).len() == n,
        in_order(v, n).to_multiset() == v.take(n).to_multiset(),
    decreases n,
{
    if n > 0 {
        law_sorted(v, n - 1);
        let done = in_order(v, n - 1);
        let x = v[n - 1];
        lemma_slot(done, x, 0);
        let p = slot_from(done, x, 0);
        let now = done.insert(p, x);
        assert forall|i: int, j: int| 0 <= i < j < now.len() implies !(#[trigger] now[j]).precedes(
            #[trigger] now[i],
        ) by {
            if j == p {
                assert(now[i] == done[i]);
            } else if i == p {
                assert(now[j] == done[j - 1]);
                assert(x.precedes(done[p]));
                T::law_precedes(done[j - 1], x, done[p]);
                if j - 1 > p {
                    assert(!done[j - 1].precedes(done[p]));
                }
            } else {
                let a = if i < p {
                    i
                } else {
                    i - 1
                };
                let b = if j < p {
                    j
                } else {
                    j - 1
                };
                assert(now[i] == done[a]);
                assert(now[j] == done[b]);
                assert(!done[b].precedes(done[a]));
            }
        }
        broadcast use vstd::seq_lib::group_to_multiset_ensures;

        assert(v.take(n) =~= v.take(n - 1).push(x));
        assert(now.to_multiset() =~= done.to_multiset().insert(x)) by {
            vstd::seq_lib::to_multiset_insert(done, p, x);
        }
    } else {
        assert(v.take(0) =~= seq![]);
    }
}

fn slot_for<T: Ranked>(v: &Vec<T>, x: &T) -> (r: usize)
    ensures
        r == slot_from(v@, *x, 0),
        r <= v@.len(),
{
    let mut i: usize = 0;
    while i < v.len()
        invariant
            i <= v@.len(),
            slot_from(v@, *x, 0) == slot_from(v@, *x, i as int),
        decreases v@.len() - i,
    {
        if x.does_precede(&v[i]) {
            return i;
        }
        i += 1;
    }
    i
}

/// A list in order.
pub fn sort<T: Ranked>(v: Vec<T>) -> (r: Vec<T>)
    ensures
        r@ == in_order(v@, v@.len() as int),
{
    let ghost all = v@;
    let mut rest = v;
    let mut out: Vec<T> = Vec::new();
    let ghost mut i: int = 0;
    proof {
        assert(all.skip(0) =~= all);
    }
    while rest.len() > 0
        invariant
            0 <= i <= all.len(),
            rest@ == all.skip(i),
            out@ == in_order(all, i),
        decreases rest.len(),
    {
        let x = rest.remove(0);
        let p = slot_for(&out, &x);
        out.insert(p, x);
        proof {
            assert(x == all[i]);
            assert(rest@ =~= all.skip(i + 1));
            i = i + 1;
        }
    }
    out
}

} // verus!
