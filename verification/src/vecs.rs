//! Moving the items of a vector without copying them.

use vstd::prelude::*;

verus! {

/// The items of `v` in the opposite order. Popping from the result hands
/// the items out in their first order.
pub fn reversed<T>(v: Vec<T>) -> (r: Vec<T>)
    ensures
        r@ == v@.reverse(),
{
    let ghost all = v@;
    let mut v = v;
    let mut r: Vec<T> = Vec::new();
    proof {
        assert(v@.reverse() + r@ =~= all.reverse());
    }
    while v.len() > 0
        invariant
            v@.len() + r@.len() == all.len(),
            r@ == all.reverse().take(r@.len() as int),
            v@ == all.take(v@.len() as int),
        decreases v.len(),
    {
        let ghost before = r@;
        let ghost n = v@.len();
        let x = v.pop().unwrap();
        r.push(x);
        proof {
            assert(x == all[n - 1]);
            assert(all.reverse()[before.len() as int] == all[all.len() - 1 - before.len()]);
            assert(r@ =~= all.reverse().take(r@.len() as int));
            assert(v@ =~= all.take(v@.len() as int));
        }
    }
    proof {
        assert(all.reverse().take(all.len() as int) =~= all.reverse());
    }
    r
}

} // verus!
