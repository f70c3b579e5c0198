//! Ordering lists largest-first, and the facts about reordering that the
//! rest of the library needs: a reordered list holds the same items and
//! adds up to the same total.
use vstd::prelude::*;

verus! {

broadcast use vstd::seq_lib::group_to_multiset_ensures;

/// `a` comes no later than `b` in ascending lexicographic order.
pub open spec fn pair_le(a: (u64, usize), b: (u64, usize)) -> bool {
    a.0 < b.0 || (a.0 == b.0 && a.1 <= b.1)
}

/// Sorts pairs of integers in ascending (lexicographic) order with
/// `slice::sort`: the result holds the same pairs, in order.
#[verifier::external_body]
fn sort_pairs(v: &mut Vec<(u64, usize)>)
    ensures
        final(v)@.to_multiset() == old(v)@.to_multiset(),
        forall|i: int, j: int| 0 <= i < j < final(v)@.len() ==> pair_le(final(v)@[i], final(v)@[j]),
{
    v.sort();
}

/// The sum of `f` over `s`.
pub open spec fn sum_of<A>(s: Seq<A>, f: spec_fn(A) -> int) -> int
    decreases s.len(),
{
    if s.len() == 0 {
        0
    } else {
        sum_of(s.drop_last(), f) + f(s.last())
    }
}

/// A sum over two lists joined is the sum of the two sums.
pub proof fn lemma_sum_concat<A>(a: Seq<A>, b: Seq<A>, f: spec_fn(A) -> int)
    ensures
        sum_of(a + b, f) == sum_of(a, f) + sum_of(b, f),
    decreases b.len(),
{
    if b.len() == 0 {
        assert(a + b =~= a);
    } else {
        lemma_sum_concat(a, b.drop_last(), f);
        assert((a + b).drop_last() =~= a + b.drop_last());
        assert((a + b).last() == b.last());
    }
}

pub proof fn lemma_sum_remove<A>(s: Seq<A>, f: spec_fn(A) -> int, j: int)
    requires
        0 <= j < s.len(),
    ensures
        sum_of(s, f) == sum_of(s.remove(j), f) + f(s[j]),
    decreases s.len(),
{
    if j == s.len() - 1 {
        assert(s.remove(j) =~= s.drop_last());
    } else {
        lemma_sum_remove(s.drop_last(), f, j);
        assert(s.remove(j).drop_last() =~= s.drop_last().remove(j));
        assert(s.remove(j).last() == s.last());
    }
}

/// Reordering does not change a sum.
pub proof fn lemma_sum_perm<A>(a: Seq<A>, b: Seq<A>, f: spec_fn(A) -> int)
    requires
        a.to_multiset() == b.to_multiset(),
    ensures
        sum_of(a, f) == sum_of(b, f),
    decreases a.len(),
{
    if a.len() == 0 {
        assert(b.to_multiset().len() == 0);
    } else {
        let x = a.last();
        assert(a.to_multiset().count(x) > 0) by {
            assert(a.contains(x)) by {
                assert(a[a.len() - 1] == x);
            }
        }
        assert(b.contains(x));
        let j = b.index_of(x);
        assert(a.drop_last() =~= a.remove(a.len() - 1));
        assert(a.drop_last().to_multiset() == a.to_multiset().remove(x));
        assert(b.remove(j).to_multiset() == b.to_multiset().remove(x));
        lemma_sum_perm(a.drop_last(), b.remove(j), f);
        lemma_sum_remove(b, f, j);
    }
}

/// Reordering commutes with applying a function to every item.
pub proof fn lemma_map_perm<A, B>(a: Seq<A>, b: Seq<A>, g: spec_fn(A) -> B)
    requires
        a.to_multiset() == b.to_multiset(),
    ensures
        a.map_values(g).to_multiset() == b.map_values(g).to_multiset(),
    decreases a.len(),
{
    if a.len() == 0 {
        assert(b.to_multiset().len() == 0);
        assert(a.map_values(g) =~= Seq::<B>::empty());
        assert(b.map_values(g) =~= Seq::<B>::empty());
    } else {
        let x = a.last();
        assert(a.to_multiset().count(x) > 0) by {
            assert(a.contains(x)) by {
                assert(a[a.len() - 1] == x);
            }
        }
        assert(b.contains(x));
        let j = b.index_of(x);
        assert(a.drop_last() =~= a.remove(a.len() - 1));
        assert(a.drop_last().to_multiset() == a.to_multiset().remove(x));
        assert(b.remove(j).to_multiset() == b.to_multiset().remove(x));
        lemma_map_perm(a.drop_last(), b.remove(j), g);
        assert(a.map_values(g) =~= a.drop_last().map_values(g).push(g(x)));
        assert(b.remove(j).map_values(g) =~= b.map_values(g).remove(j));
        assert(b.map_values(g).remove(j).to_multiset() == b.map_values(g).to_multiset().remove(
            g(x),
        ));
        assert(b.map_values(g).to_multiset().count(g(x)) > 0) by {
            assert(b.map_values(g)[j] == g(x));
            assert(b.map_values(g).contains(g(x)));
        }
    }
}

/// `keys[i] >= keys[j]` for every `i < j`.
pub open spec fn desc(keys: Seq<int>) -> bool {
    forall|i: int, j: int| 0 <= i < j < keys.len() ==> keys[i] >= keys[j]
}

/// The positions `0..n`.
pub open spec fn positions(n: nat) -> Seq<usize> {
    Seq::new(n, |i: int| i as usize)
}

/// An order of the positions of `sizes` that lists them largest first.
pub open spec fn is_desc_order(sizes: Seq<u64>, order: Seq<usize>) -> bool {
    &&& order.to_multiset() == positions(sizes.len()).to_multiset()
    &&& forall|k: int| 0 <= k < order.len() ==> order[k] < sizes.len()
    &&& desc(order.map_values(|i: usize| sizes[i as int] as int))
}

/// A largest-first order of the positions of `sizes` in which positions of
/// equal size keep the order they were given in.
pub open spec fn stable_desc_order(sizes: Seq<u64>, order: Seq<usize>) -> bool {
    &&& is_desc_order(sizes, order)
    &&& forall|a: int, b: int|
        0 <= a < b < order.len() && sizes[order[a] as int] == sizes[order[b] as int] ==> order[a] < order[b]
}

/// Positions of `sizes`, largest size first (ties keep the order they were given in).
pub fn order_desc(sizes: &Vec<u64>) -> (order: Vec<usize>)
    ensures
        stable_desc_order(sizes@, order@),
        order@.len() == sizes@.len(),
{
    let n = sizes.len();
    let mut pairs: Vec<(u64, usize)> = Vec::new();
    let mut i: usize = 0;
    while i < n
        invariant
            n == sizes@.len(),
            i <= n,
            pairs@.len() == i,
            forall|k: int| 0 <= k < i ==> pairs@[k] == ((u64::MAX - sizes@[k]) as u64, k as usize),
        decreases n - i,
    {
        pairs.push((u64::MAX - sizes[i], i));
        i = i + 1;
    }
    let ghost initial = pairs@;
    sort_pairs(&mut pairs);
    let mut order: Vec<usize> = Vec::new();
    let mut k: usize = 0;
    while k < pairs.len()
        invariant
            k <= pairs@.len(),
            order@ == pairs@.take(k as int).map_values(|p: (u64, usize)| p.1),
        decreases pairs@.len() - k,
    {
        order.push(pairs[k].1);
        proof {
            assert(pairs@.take(k + 1).map_values(|p: (u64, usize)| p.1) =~= pairs@.take(
                k as int,
            ).map_values(|p: (u64, usize)| p.1).push(pairs@[k as int].1));
        }
        k = k + 1;
    }
    proof {
        let snd = |p: (u64, usize)| p.1;
        assert(pairs@.take(pairs@.len() as int) =~= pairs@);
        assert(initial.map_values(snd) =~= positions(n as nat));
        lemma_map_perm(pairs@, initial, snd);
        assert(pairs@.to_multiset().len() == initial.to_multiset().len());
        assert forall|k: int| 0 <= k < order@.len() implies order@[k] < sizes@.len() by {
            let p = pairs@[k];
            assert(pairs@.to_multiset().count(p) > 0) by {
                assert(pairs@.contains(p));
            }
            assert(initial.contains(p));
        }
        assert forall|a: int, b: int| 0 <= a < b < order@.len() implies sizes@[order@[a] as int]
            >= sizes@[order@[b] as int] by {
            let pa = pairs@[a];
            let pb = pairs@[b];
            assert(pairs@.to_multiset().count(pa) > 0) by {
                assert(pairs@.contains(pa));
            }
            assert(pairs@.to_multiset().count(pb) > 0) by {
                assert(pairs@.contains(pb));
            }
            assert(initial.contains(pa));
            assert(initial.contains(pb));
            let ia = initial.index_of(pa);
            let ib = initial.index_of(pb);
            assert(pair_le(pa, pb));
        }
        let ords = order@.map_values(|i: usize| sizes@[i as int] as int);
        assert forall|a: int, b: int| 0 <= a < b < ords.len() implies ords[a] >= ords[b] by {
            assert(sizes@[order@[a] as int] >= sizes@[order@[b] as int]);
        }
        assert forall|a: int, b: int| 0 <= a < b < initial.len() implies initial[a] != initial[b] by {
            assert(initial[a].1 == a);
            assert(initial[b].1 == b);
        }
        assert(initial.no_duplicates());
        initial.lemma_multiset_has_no_duplicates();
        pairs@.lemma_multiset_has_no_duplicates_conv();
        assert forall|a: int, b: int|
            0 <= a < b < order@.len() && sizes@[order@[a] as int] == sizes@[order@[b] as int] implies order@[a]
                < order@[b] by {
            let pa = pairs@[a];
            let pb = pairs@[b];
            assert(pairs@.to_multiset().count(pa) > 0) by {
                assert(pairs@.contains(pa));
            }
            assert(pairs@.to_multiset().count(pb) > 0) by {
                assert(pairs@.contains(pb));
            }
            assert(initial.contains(pa));
            assert(initial.contains(pb));
            let ia = initial.index_of(pa);
            let ib = initial.index_of(pb);
            assert(pair_le(pa, pb));
            assert(pa != pb);
        }
    }
    order
}

/// The items of `items` at `order`.
pub open spec fn pick<A>(items: Seq<A>, order: Seq<usize>) -> Seq<A> {
    order.map_values(|i: usize| items[i as int])
}

/// Picking every position once keeps the same items.
pub proof fn lemma_pick_perm<A>(items: Seq<A>, order: Seq<usize>)
    requires
        order.to_multiset() == positions(items.len()).to_multiset(),
        items.len() <= usize::MAX,
    ensures
        pick(items, order).to_multiset() == items.to_multiset(),
{
    let g = |i: usize| items[i as int];
    lemma_map_perm(order, positions(items.len()), g);
    assert forall|i: int| 0 <= i < items.len() implies positions(items.len()).map_values(g)[i]
        == items[i] by {
        assert(positions(items.len())[i] == i as usize);
    }
    assert(positions(items.len()).map_values(g) =~= items);
}

/// `min(n, cap)`.
pub open spec fn capped(n: nat, cap: nat) -> nat {
    if n <= cap {
        n
    } else {
        cap
    }
}

/// Items of equal size are picked in the order they were given in.
pub open spec fn ties_in_order<A>(items: Seq<A>, size: spec_fn(A) -> int, order: Seq<usize>) -> bool {
    forall|a: int, b: int|
        0 <= a < b < order.len() && size(items[order[a] as int]) == size(items[order[b] as int]) ==> order[a]
            < order[b]
}

/// `out` is `items` reordered largest-first by `size`, items of equal size
/// in the order they were given in, and cut to `cap` items.
pub open spec fn largest_first<A>(items: Seq<A>, size: spec_fn(A) -> int, cap: nat, out: Seq<A>) -> bool {
    exists|o: Seq<A>|
        #![trigger o.to_multiset()]
        o.to_multiset() == items.to_multiset() && desc(o.map_values(size)) && out == o.take(
            capped(items.len(), cap) as int,
        ) && (exists|order: Seq<usize>|
            #![trigger pick(items, order)]
            o == pick(items, order) && order.to_multiset() == positions(items.len()).to_multiset()
                && ties_in_order(items, size, order))
}

/// Picking, in a largest-first order of their sizes, the first `cap` items
/// gives the largest-first listing of the items.
pub proof fn lemma_pick_largest<A>(
    items: Seq<A>,
    size: spec_fn(A) -> int,
    sizes: Seq<u64>,
    order: Seq<usize>,
    cap: nat,
)
    requires
        stable_desc_order(sizes, order),
        sizes.len() == items.len(),
        items.len() <= usize::MAX,
        forall|i: int| 0 <= i < items.len() ==> size(items[i]) == sizes[i] as int,
    ensures
        largest_first(items, size, cap, pick(items, order).take(capped(items.len(), cap) as int)),
{
    let o = pick(items, order);
    lemma_pick_perm(items, order);
    assert(o.map_values(size) =~= order.map_values(|j: usize| sizes[j as int] as int));
    assert(o.to_multiset() == items.to_multiset());
    assert(desc(o.map_values(size)));
    assert(ties_in_order(items, size, order));
}

/// The positions of the `cap` largest of `sizes`, largest first (ties keep
/// the order they were given in).
pub fn largest_positions(sizes: &Vec<u64>, cap: usize) -> (r: Vec<usize>)
    ensures
        exists|order: Seq<usize>|
            stable_desc_order(sizes@, order) && order.len() == sizes@.len() && r@ == order.take(
                capped(sizes@.len(), cap as nat) as int,
            ),
{
    let order = order_desc(sizes);
    let mut r: Vec<usize> = Vec::new();
    let mut k: usize = 0;
    while k < order.len() && k < cap
        invariant
            k <= order@.len(),
            k <= cap,
            r@ == order@.take(k as int),
        decreases order@.len() - k,
    {
        r.push(order[k]);
        proof {
            assert(order@.take(k + 1) =~= order@.take(k as int).push(order@[k as int]));
        }
        k = k + 1;
    }
    proof {
        assert(k as int == capped(sizes@.len(), cap as nat));
    }
    r
}

} // verus!
