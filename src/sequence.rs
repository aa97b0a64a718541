//! Helpers on vectors that move their elements.

use vstd::prelude::*;

verus! {

/// The elements of `v` in reverse order.
pub fn reversed<T>(v: Vec<T>) -> (r: Vec<T>)
    ensures
        r@ == v@.reverse(),
{
    let ghost orig = v@;
    let mut v = v;
    let mut r: Vec<T> = Vec::new();
    while v.len() > 0
        invariant
            v@ == orig.take(v@.len() as int),
            v@.len() <= orig.len(),
            r@.len() + v@.len() == orig.len(),
            forall|i: int| 0 <= i < r@.len() ==> r@[i] == orig[orig.len() - 1 - i],
        decreases v@.len(),
    {
        let x = v.pop().unwrap();
        r.push(x);
        proof {
            assert(v@ =~= orig.take(v@.len() as int));
        }
    }
    assert(r@ =~= orig.reverse());
    r
}

/// Pushing onto a sequence puts the element first in its reverse.
pub proof fn lemma_reverse_push<T>(s: Seq<T>, x: T)
    ensures
        s.push(x).reverse() == seq![x] + s.reverse(),
{
    assert(s.push(x).reverse() =~= seq![x] + s.reverse());
}

/// The last element of the reverse of a prefix is the next element.
pub proof fn lemma_reverse_skip<T>(s: Seq<T>, i: int)
    requires
        0 <= i < s.len(),
    ensures
        s.skip(i).reverse().drop_last() == s.skip(i + 1).reverse(),
        s.skip(i).reverse().last() == s[i],
{
    assert(s.skip(i).reverse().drop_last() =~= s.skip(i + 1).reverse());
}

} // verus!
