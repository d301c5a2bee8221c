//! Sequences without repetition.

use vstd::prelude::*;

verus! {

/// The items without repetition, each where it first stands.
pub open spec fn distinct<T>(xs: Seq<T>) -> Seq<T>
    decreases xs.len(),
{
    if xs.len() == 0 {
        seq![]
    } else {
        let front = distinct(xs.drop_last());
        if front.contains(xs.last()) {
            front
        } else {
            front.push(xs.last())
        }
    }
}

/// `distinct` keeps every item, and keeps none twice.
pub proof fn lemma_distinct<T>(xs: Seq<T>)
    ensures
        forall|x: T| distinct(xs).contains(x) <==> xs.contains(x),
        forall|i: int, j: int|
            0 <= i < j < distinct(xs).len() ==> distinct(xs)[i] != distinct(xs)[j],
        distinct(xs).len() <= xs.len(),
    decreases xs.len(),
{
    if xs.len() > 0 {
        let front = xs.drop_last();
        let last = xs.last();
        let d = distinct(front);
        let all = distinct(xs);
        lemma_distinct(front);
        assert forall|x: T| all.contains(x) <==> xs.contains(x) by {
            if xs.contains(x) {
                let k = choose|k: int| 0 <= k < xs.len() && xs[k] == x;
                if k < front.len() {
                    assert(front[k] == x);
                    assert(front.contains(x));
                    assert(d.contains(x));
                }
                if d.contains(x) {
                    let m = choose|m: int| 0 <= m < d.len() && d[m] == x;
                    assert(all[m] == x);
                } else {
                    assert(x == last);
                    assert(all[d.len() as int] == x);
                }
            }
            if all.contains(x) {
                let m = choose|m: int| 0 <= m < all.len() && all[m] == x;
                if m < d.len() {
                    assert(d[m] == x);
                    assert(d.contains(x));
                    assert(front.contains(x));
                    let k = choose|k: int| 0 <= k < front.len() && front[k] == x;
                    assert(xs[k] == x);
                } else {
                    assert(xs[xs.len() - 1] == x);
                }
            }
        }
        assert forall|i: int, j: int| 0 <= i < j < all.len() implies all[i] != all[j] by {
            if j < d.len() {
                assert(d[i] != d[j]);
            } else {
                assert(all[j] == last);
                assert(all[i] == d[i]);
                if d[i] == last {
                    assert(d.contains(last));
                }
            }
        }
    }
}

} // verus!
