//! Stable sorting by a key: the order in which to walk a list so that its
//! keys ascend, with equal keys left in the order they came in.

use crate::order::{lemma_text_order, str_lt, text_lt};
use vstd::prelude::*;

verus! {

/// A rank: a mathematical value with a strict weak order.
pub trait Rank: Sized {
    /// Whether `self` comes strictly before `other`.
    spec fn precedes(&self, other: &Self) -> bool;

    /// `precedes` is a strict weak order: nothing comes before itself, the
    /// relation is transitive, and so is its complement.
    proof fn lemma_ranking(a: &Self, b: &Self, c: &Self)
        ensures
            !a.precedes(a),
            a.precedes(b) && b.precedes(c) ==> a.precedes(c),
            !a.precedes(b) && !b.precedes(c) ==> !a.precedes(c),
    ;
}

/// Numbers rank by size.
impl Rank for u64 {
    open spec fn precedes(&self, other: &Self) -> bool {
        *self < *other
    }

    proof fn lemma_ranking(a: &Self, b: &Self, c: &Self) {
    }
}

/// Texts rank in the order of strings.
impl Rank for Seq<char> {
    open spec fn precedes(&self, other: &Self) -> bool {
        text_lt(*self, *other)
    }

    proof fn lemma_ranking(a: &Self, b: &Self, c: &Self) {
        lemma_text_order(*a, *b, *c);
        lemma_text_order(*b, *c, *a);
        lemma_text_order(*a, *c, *b);
    }
}

/// An absent rank comes before every present one.
impl<R: Rank> Rank for Option<R> {
    open spec fn precedes(&self, other: &Self) -> bool {
        match (*self, *other) {
            (None, None) => false,
            (None, Some(_)) => true,
            (Some(_), None) => false,
            (Some(x), Some(y)) => x.precedes(&y),
        }
    }

    proof fn lemma_ranking(a: &Self, b: &Self, c: &Self) {
        match (*a, *b, *c) {
            (Some(x), Some(y), Some(z)) => {
                R::lemma_ranking(&x, &y, &z);
            },
            (Some(x), _, _) => {
                R::lemma_ranking(&x, &x, &x);
            },
            _ => {},
        }
    }
}

/// A key that rows are sorted by: a value that has a rank and can be
/// compared by it.
pub trait Ranked: Sized {
    type Rank: Rank;

    /// The rank of this key.
    spec fn rank(&self) -> Self::Rank;

    /// Decides whether `self` ranks strictly before `other`.
    fn comes_before(&self, other: &Self) -> (r: bool)
        ensures
            r == self.rank().precedes(&other.rank()),
    ;
}

impl Ranked for u64 {
    type Rank = u64;

    open spec fn rank(&self) -> u64 {
        *self
    }

    fn comes_before(&self, other: &Self) -> (r: bool) {
        *self < *other
    }
}

impl<'a> Ranked for &'a str {
    type Rank = Seq<char>;

    open spec fn rank(&self) -> Seq<char> {
        self@
    }

    fn comes_before(&self, other: &Self) -> (r: bool) {
        str_lt(*self, *other)
    }
}

impl<K: Ranked> Ranked for Option<K> {
    type Rank = Option<K::Rank>;

    open spec fn rank(&self) -> Option<K::Rank> {
        match *self {
            Some(key) => Some(key.rank()),
            None => None,
        }
    }

    fn comes_before(&self, other: &Self) -> (r: bool) {
        match (self, other) {
            (None, None) => false,
            (None, Some(_)) => true,
            (Some(_), None) => false,
            (Some(x), Some(y)) => x.comes_before(y),
        }
    }
}

/// The ranks of `keys`.
pub open spec fn ranks<K: Ranked>(keys: Seq<K>) -> Seq<K::Rank> {
    Seq::new(keys.len(), |i: int| keys[i].rank())
}

/// Whether the item at place `a` belongs before the item at place `b`:
/// its key comes first, or the keys tie and `a` is the earlier place.
pub open spec fn placed_before<K: Rank>(keys: Seq<K>, a: int, b: int) -> bool {
    keys[a].precedes(&keys[b]) || (!keys[b].precedes(&keys[a]) && a < b)
}

/// Whether `order` lists every place of `keys` once, each place before
/// those that belong after it.
pub open spec fn is_order_of<K: Rank>(order: Seq<usize>, keys: Seq<K>) -> bool {
    &&& order.len() == keys.len()
    &&& forall|i: int| 0 <= i < order.len() ==> #[trigger] order[i] < keys.len()
    &&& forall|place: usize| place < keys.len() ==> order.contains(place)
    &&& forall|i: int, j: int|
        0 <= i < j < order.len() ==> placed_before(keys, #[trigger] order[i] as int, #[trigger] order[j] as int)
}

/// The stable sorting order of `keys`.
pub open spec fn sorted_order<K: Rank>(keys: Seq<K>) -> Seq<usize> {
    choose|order: Seq<usize>| is_order_of(order, keys)
}

/// `items` walked in `order`.
pub open spec fn arranged<T>(items: Seq<T>, order: Seq<usize>) -> Seq<T> {
    Seq::new(order.len(), |i: int| items[order[i] as int])
}

/// Of two different places one belongs before the other, never both.
pub proof fn lemma_placed_before<K: Rank>(keys: Seq<K>, a: int, b: int)
    ensures
        !placed_before(keys, a, a),
        placed_before(keys, a, b) ==> !placed_before(keys, b, a),
        a != b ==> placed_before(keys, a, b) || placed_before(keys, b, a),
{
    K::lemma_ranking(&keys[a], &keys[b], &keys[a]);
}

/// A list of keys has only one stable sorting order.
pub proof fn lemma_order_unique<K: Rank>(keys: Seq<K>, p: Seq<usize>, q: Seq<usize>)
    requires
        is_order_of(p, keys),
        is_order_of(q, keys),
    ensures
        p == q,
{
    assert forall|i: int| 0 <= i < p.len() implies p[i] == q[i] by {
        lemma_order_agrees(keys, p, q, i);
    }
    assert(p =~= q);
}

proof fn lemma_order_agrees<K: Rank>(keys: Seq<K>, p: Seq<usize>, q: Seq<usize>, i: int)
    requires
        is_order_of(p, keys),
        is_order_of(q, keys),
        0 <= i < p.len(),
    ensures
        p[i] == q[i],
    decreases i,
{
    assert forall|j: int| 0 <= j < i implies p[j] == q[j] by {
        lemma_order_agrees(keys, p, q, j);
    }
    assert(p.contains(q[i]));
    assert(q.contains(p[i]));
    let m = choose|m: int| 0 <= m < p.len() && p[m] == q[i];
    let n = choose|n: int| 0 <= n < q.len() && q[n] == p[i];
    lemma_placed_before(keys, p[i] as int, q[i] as int);
    if m < i {
        assert(q[m] == p[m]);
        assert(placed_before(keys, q[m] as int, q[i] as int));
        lemma_placed_before(keys, q[i] as int, q[i] as int);
    } else if m > i {
        assert(placed_before(keys, p[i] as int, p[m] as int));
        if n < i {
            assert(p[n] == q[n]);
            assert(placed_before(keys, p[n] as int, p[i] as int));
            lemma_placed_before(keys, p[i] as int, p[i] as int);
        } else if n > i {
            assert(placed_before(keys, q[i] as int, q[n] as int));
        }
    }
}

/// The order in which to walk `keys` so that their ranks ascend, keys of
/// equal rank in the order they stand in.
pub fn sort_order<K: Ranked>(keys: &Vec<K>) -> (order: Vec<usize>)
    ensures
        is_order_of(order@, ranks(keys@)),
        order@ == sorted_order(ranks(keys@)),
{
    let ghost all = ranks(keys@);
    let mut order: Vec<usize> = Vec::new();
    let mut next: usize = 0;
    while next < keys.len()
        invariant
            next <= keys.len(),
            all == ranks(keys@),
            is_order_of(order@, all.take(next as int)),
        decreases keys.len() - next,
    {
        let ghost known = all.take(next as int);
        let ghost grown = all.take(next + 1);
        // The new place goes before the first one whose key ranks after its key.
        let mut at: usize = 0;
        while at < order.len() && !keys[next].comes_before(&keys[order[at]])
            invariant
                next < keys.len(),
                at <= order.len(),
                order.len() == next,
                all == ranks(keys@),
                is_order_of(order@, all.take(next as int)),
                forall|i: int| 0 <= i < at ==> !all[next as int].precedes(&all[order@[i] as int]),
            decreases order.len() - at,
        {
            at += 1;
        }
        let ghost before = order@;
        order.insert(at, next);
        proof {
            let after = order@;
            assert forall|place: usize| place < grown.len() implies after.contains(place) by {
                if place < next {
                    assert(before.contains(place));
                    let i = choose|i: int| 0 <= i < before.len() && before[i] == place;
                    if i < at {
                        assert(after[i] == place);
                    } else {
                        assert(after[i + 1] == place);
                    }
                } else {
                    assert(after[at as int] == place);
                }
            }
            assert forall|i: int, j: int| 0 <= i < j < after.len() implies placed_before(
                grown,
                #[trigger] after[i] as int,
                #[trigger] after[j] as int,
            ) by {
                let (a, b) = (after[i] as int, after[j] as int);
                if i == at {
                    // The new place before an old one, whose key ranks after.
                    let last = before[at as int] as int;
                    assert(before[j - 1] == after[j]);
                    assert(all[next as int].precedes(&all[last]));
                    if j - 1 > at {
                        assert(placed_before(known, last, b));
                        K::Rank::lemma_ranking(&all[next as int], &all[last], &all[b]);
                        K::Rank::lemma_ranking(&all[next as int], &all[b], &all[last]);
                    }
                } else if j == at {
                    assert(before[i] == after[i]);
                    assert(before[i] < known.len());
                } else {
                    let (x, y) = (if i < at { i } else { i - 1 }, if j < at { j } else { j - 1 });
                    assert(before[x] == after[i]);
                    assert(before[y] == after[j]);
                    assert(placed_before(known, before[x] as int, before[y] as int));
                }
            }
            assert forall|i: int| 0 <= i < after.len() implies #[trigger] after[i] < grown.len() by {
                if i < at {
                    assert(before[i] == after[i]);
                } else if i > at {
                    assert(before[i - 1] == after[i]);
                }
            }
        }
        next += 1;
    }
    proof {
        assert(all.take(next as int) =~= all);
        lemma_order_unique(all, order@, sorted_order(all));
    }
    order
}

/// Walks `items` in `order`.
pub fn arrange<T: Copy>(items: &Vec<T>, order: &Vec<usize>) -> (r: Vec<T>)
    requires
        forall|i: int| 0 <= i < order.len() ==> #[trigger] order[i] < items.len(),
    ensures
        r@ == arranged(items@, order@),
{
    let mut out: Vec<T> = Vec::new();
    let mut i: usize = 0;
    while i < order.len()
        invariant
            i <= order.len(),
            out.len() == i,
            forall|j: int| 0 <= j < order.len() ==> #[trigger] order[j] < items.len(),
            forall|j: int| 0 <= j < i ==> out@[j] == items@[order@[j] as int],
        decreases order.len() - i,
    {
        out.push(items[order[i]]);
        i += 1;
    }
    assert(out@ =~= arranged(items@, order@));
    out
}

} // verus!
