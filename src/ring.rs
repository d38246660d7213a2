//! A polygon's vertices form a ring: edge `i` runs from vertex `i` to the next.
use vstd::prelude::*;

verus! {

/// The vertex after `i` on a ring of `n` vertices.
pub open spec fn next_of(i: int, n: int) -> int {
    (i + 1) % n
}

/// The index of the vertex that follows `i` on a ring of `n` vertices.
pub fn next_index(i: usize, n: usize) -> (r: usize)
    requires
        i < n,
    ensures
        r == next_of(i as int, n as int),
        r < n,
        i + 1 < n ==> r == i + 1,
        i + 1 == n ==> r == 0,
{
    if i + 1 == n {
        assert(next_of(i as int, n as int) == 0) by {
            vstd::arithmetic::div_mod::lemma_mod_self_0(n as int);
        }
        0
    } else {
        assert(next_of(i as int, n as int) == i + 1) by {
            vstd::arithmetic::div_mod::lemma_small_mod((i + 1) as nat, n as nat);
        }
        i + 1
    }
}

/// The ring closed on itself: every item, then the first again, so that
/// consecutive pairs are the edges.
pub fn cycled<T: Copy>(items: &Vec<T>) -> (r: Vec<T>)
    requires
        items@.len() > 0,
    ensures
        r@ == items@.push(items@[0]),
{
    let mut r: Vec<T> = Vec::new();
    let mut k: usize = 0;
    while k < items.len()
        invariant
            k <= items@.len(),
            r@ == items@.subrange(0, k as int),
        decreases items@.len() - k,
    {
        r.push(items[k]);
        k = k + 1;
        assert(r@ =~= items@.subrange(0, k as int));
    }
    r.push(items[0]);
    assert(r@ =~= items@.push(items@[0]));
    r
}

/// Consecutive items of the closed ring are the ends of one edge: item `i`
/// and the one that `next_index` gives.
pub proof fn lemma_cycled_edges<T>(items: Seq<T>, i: int)
    requires
        0 <= i < items.len(),
    ensures
        items.push(items[0])[i] == items[i],
        items.push(items[0])[i + 1] == items[next_of(i, items.len() as int)],
{
    let n = items.len() as int;
    if i + 1 == n {
        vstd::arithmetic::div_mod::lemma_mod_self_0(n);
    } else {
        vstd::arithmetic::div_mod::lemma_small_mod((i + 1) as nat, n as nat);
    }
}

} // verus!
