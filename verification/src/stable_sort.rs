//! Stable sorting by integer keys, as the order in which the places of a
//! list are to be read.

use vstd::prelude::*;

verus! {

/// Whether place `a` comes before place `b`: its key is lower, or the keys
/// are equal and `a` is the earlier place.
pub open spec fn before(keys: Seq<i64>, a: usize, b: usize) -> bool {
    keys[a as int] < keys[b as int] || (keys[a as int] == keys[b as int] && a < b)
}

/// Where place `x` goes into an ordered list of earlier places: behind the
/// last place whose key is not above that of `x`.
pub open spec fn insert_pos(keys: Seq<i64>, sorted: Seq<usize>, x: usize) -> int
    decreases sorted.len(),
{
    if sorted.len() == 0 {
        0
    } else if keys[sorted.last() as int] <= keys[x as int] {
        sorted.len() as int
    } else {
        insert_pos(keys, sorted.drop_last(), x)
    }
}

/// The first `n` places in stable order of their keys.
pub open spec fn stable_order_upto(keys: Seq<i64>, n: int) -> Seq<usize>
    decreases n,
{
    if n <= 0 {
        Seq::<usize>::empty()
    } else {
        let prev = stable_order_upto(keys, n - 1);
        prev.insert(insert_pos(keys, prev, (n - 1) as usize), (n - 1) as usize)
    }
}

/// The places of a list of keys in stable ascending order of the keys.
pub open spec fn stable_order(keys: Seq<i64>) -> Seq<usize> {
    stable_order_upto(keys, keys.len() as int)
}

/// The items of a list read in the given order of places.
pub open spec fn reordered<T>(items: Seq<T>, order: Seq<usize>) -> Seq<T> {
    Seq::new(order.len(), |i: int| items[order[i] as int])
}

/// What makes `order` the stable order of the first `n` places: it holds
/// each of them, each once, lower keys first and equal keys in the order
/// of the places.
pub open spec fn in_stable_order(keys: Seq<i64>, order: Seq<usize>, n: int) -> bool {
    &&& order.len() == n
    &&& forall|i: int| 0 <= i < n ==> (#[trigger] order[i]) < n
    &&& forall|x: int| 0 <= x < n ==> #[trigger] order.contains(x as usize)
    &&& forall|i: int, j: int|
        0 <= i < j < n ==> before(keys, #[trigger] order[i], #[trigger] order[j])
}

/// `insert_pos` lies inside the list, every place from it on has a key
/// above that of `x`, and the place just before it has not.
pub proof fn lemma_insert_pos(keys: Seq<i64>, sorted: Seq<usize>, x: usize)
    ensures
        ({
            let p = insert_pos(keys, sorted, x);
            &&& 0 <= p <= sorted.len()
            &&& forall|j: int|
                p <= j < sorted.len() ==> keys[(#[trigger] sorted[j]) as int] > keys[x as int]
            &&& p > 0 ==> keys[sorted[p - 1] as int] <= keys[x as int]
        }),
    decreases sorted.len(),
{
    if sorted.len() > 0 && keys[sorted.last() as int] > keys[x as int] {
        lemma_insert_pos(keys, sorted.drop_last(), x);
        let p = insert_pos(keys, sorted, x);
        assert forall|j: int| p <= j < sorted.len() implies keys[(#[trigger] sorted[j]) as int]
            > keys[x as int] by {
            if j < sorted.len() - 1 {
                assert(sorted.drop_last()[j] == sorted[j]);
            }
        }
        if p > 0 {
            assert(sorted.drop_last()[p - 1] == sorted[p - 1]);
        }
    }
}

/// The stable order is a stable order: every place occurs, each once, lower
/// keys come first, and places with equal keys stay in the order they had.
pub proof fn lemma_stable_order(keys: Seq<i64>, n: int)
    requires
        0 <= n <= keys.len(),
        n <= usize::MAX,
    ensures
        in_stable_order(keys, stable_order_upto(keys, n), n),
    decreases n,
{
    if n > 0 {
        lemma_stable_order(keys, n - 1);
        let prev = stable_order_upto(keys, n - 1);
        let x = (n - 1) as usize;
        let p = insert_pos(keys, prev, x);
        lemma_insert_pos(keys, prev, x);
        let order = prev.insert(p, x);
        assert(order == stable_order_upto(keys, n));
        assert(order.len() == n);
        assert forall|i: int| 0 <= i < n implies (#[trigger] order[i]) < n by {
            if i < p {
                assert(order[i] == prev[i]);
            } else if i > p {
                assert(order[i] == prev[i - 1]);
            }
        }
        assert forall|y: int| 0 <= y < n implies #[trigger] order.contains(y as usize) by {
            if y == n - 1 {
                assert(order[p] == x);
            } else {
                assert(prev.contains(y as usize));
                let k = choose|k: int| 0 <= k < prev.len() && prev[k] == y as usize;
                if k < p {
                    assert(order[k] == prev[k]);
                } else {
                    assert(order[k + 1] == prev[k]);
                }
            }
        }
        assert forall|i: int, j: int| 0 <= i < j < n implies before(
            keys,
            #[trigger] order[i],
            #[trigger] order[j],
        ) by {
            if j < p {
                assert(order[i] == prev[i] && order[j] == prev[j]);
            } else if j == p {
                assert(order[i] == prev[i]);
                assert(prev[i] < n - 1);
                if i < p - 1 {
                    assert(before(keys, prev[i], prev[p - 1]));
                }
            } else if i < p {
                assert(order[i] == prev[i] && order[j] == prev[j - 1]);
                if i < j - 1 {
                    assert(before(keys, prev[i], prev[j - 1]));
                }
            } else if i == p {
                assert(order[j] == prev[j - 1]);
            } else {
                assert(order[i] == prev[i - 1] && order[j] == prev[j - 1]);
            }
        }
    }
}

/// Reading a list in stable order gives the same items, each as often as it
/// occurred: sorting permutes.
pub proof fn lemma_stable_order_permutes<T>(items: Seq<T>, keys: Seq<i64>, n: int)
    requires
        0 <= n <= keys.len(),
        n <= items.len(),
        n <= usize::MAX,
    ensures
        reordered(items, stable_order_upto(keys, n)).to_multiset() == items.take(n).to_multiset(),
    decreases n,
{
    broadcast use {vstd::seq_lib::to_multiset_insert, vstd::seq_lib::to_multiset_build};

    if n == 0 {
        assert(reordered(items, stable_order_upto(keys, n)) =~= items.take(n));
    } else {
        lemma_stable_order_permutes(items, keys, n - 1);
        lemma_stable_order(keys, n - 1);
        let prev = stable_order_upto(keys, n - 1);
        let x = (n - 1) as usize;
        let p = insert_pos(keys, prev, x);
        lemma_insert_pos(keys, prev, x);
        assert(reordered(items, prev.insert(p, x)) =~= reordered(items, prev).insert(
            p,
            items[n - 1],
        ));
        assert(items.take(n) =~= items.take(n - 1).push(items[n - 1]));
    }
}

/// Returns the places of a list of keys in stable ascending order of the
/// keys.
pub fn sort_order(keys: &Vec<i64>) -> (order: Vec<usize>)
    ensures
        order@ == stable_order(keys@),
        in_stable_order(keys@, order@, keys@.len() as int),
{
    let mut order: Vec<usize> = Vec::new();
    let mut x: usize = 0;
    while x < keys.len()
        invariant
            x <= keys@.len(),
            order@ == stable_order_upto(keys@, x as int),
        decreases keys@.len() - x,
    {
        proof {
            lemma_stable_order(keys@, x as int);
        }
        let mut p: usize = order.len();
        assert(order@.take(p as int) =~= order@);
        while p > 0 && keys[order[p - 1]] > keys[x]
            invariant
                p <= order@.len(),
                x < keys@.len(),
                in_stable_order(keys@, order@, x as int),
                insert_pos(keys@, order@.take(p as int), x) == insert_pos(keys@, order@, x),
            decreases p,
        {
            proof {
                assert(order@.take(p as int).drop_last() =~= order@.take(p - 1));
                assert(order@.take(p as int).last() == order@[p - 1]);
            }
            p -= 1;
        }
        proof {
            if p > 0 {
                assert(order@.take(p as int).last() == order@[p - 1]);
            }
            assert(insert_pos(keys@, order@, x) == p);
        }
        order.insert(p, x);
        x += 1;
    }
    proof {
        lemma_stable_order(keys@, keys@.len() as int);
    }
    order
}

/// Returns the items of a list read in the given order of places.
pub fn permute<T: Copy>(items: &Vec<T>, order: &Vec<usize>) -> (out: Vec<T>)
    requires
        forall|i: int| 0 <= i < order@.len() ==> (#[trigger] order@[i]) < items@.len(),
    ensures
        out@ == reordered(items@, order@),
{
    let mut out: Vec<T> = Vec::new();
    let mut i: usize = 0;
    while i < order.len()
        invariant
            i <= order@.len(),
            forall|k: int| 0 <= k < order@.len() ==> (#[trigger] order@[k]) < items@.len(),
            out@.len() == i,
            forall|k: int| 0 <= k < i ==> out@[k] == items@[order@[k] as int],
        decreases order@.len() - i,
    {
        out.push(items[order[i]]);
        i += 1;
    }
    assert(out@ =~= reordered(items@, order@));
    out
}

} // verus!
