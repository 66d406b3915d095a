//! Ordering: the order of texts, and a stable sort over any ordered key.

use crate::text::to_chars;
use vstd::prelude::*;

verus! {

/// The order of texts: the first differing character decides, and a text comes
/// after its own beginning.
pub open spec fn text_before(a: Seq<char>, b: Seq<char>) -> bool
    decreases a.len(),
{
    if b.len() == 0 {
        false
    } else if a.len() == 0 {
        true
    } else if a[0] != b[0] {
        a[0] < b[0]
    } else {
        text_before(a.drop_first(), b.drop_first())
    }
}

/// No text comes before itself.
pub proof fn lemma_text_irreflexive(a: Seq<char>)
    ensures
        !text_before(a, a),
    decreases a.len(),
{
    if a.len() > 0 {
        lemma_text_irreflexive(a.drop_first());
    }
}

/// Of two different texts one comes before the other.
pub proof fn lemma_text_total(a: Seq<char>, b: Seq<char>)
    ensures
        text_before(a, b) || text_before(b, a) || a == b,
    decreases a.len(),
{
    if a.len() > 0 && b.len() > 0 && a[0] == b[0] {
        lemma_text_total(a.drop_first(), b.drop_first());
        if a.drop_first() == b.drop_first() {
            assert(a =~= seq![a[0]] + a.drop_first());
            assert(b =~= seq![b[0]] + b.drop_first());
        }
    } else if a.len() == 0 && b.len() == 0 {
        assert(a =~= b);
    }
}

/// The order of texts is transitive.
pub proof fn lemma_text_transitive(a: Seq<char>, b: Seq<char>, c: Seq<char>)
    requires
        text_before(a, b),
        text_before(b, c),
    ensures
        text_before(a, c),
    decreases a.len(),
{
    if a.len() > 0 && b.len() > 0 && c.len() > 0 && a[0] == b[0] && b[0] == c[0] {
        lemma_text_transitive(a.drop_first(), b.drop_first(), c.drop_first());
    }
}

/// The order of texts, for three of them.
pub proof fn lemma_text_order(a: Seq<char>, b: Seq<char>, c: Seq<char>)
    ensures
        !text_before(a, a),
        text_before(a, b) ==> !text_before(b, a),
        text_before(a, b) || text_before(b, a) || a == b,
        text_before(a, b) && text_before(b, c) ==> text_before(a, c),
{
    lemma_text_irreflexive(a);
    lemma_text_total(a, b);
    if text_before(a, b) && text_before(b, a) {
        lemma_text_transitive(a, b, a);
    }
    if text_before(a, b) && text_before(b, c) {
        lemma_text_transitive(a, b, c);
    }
}

/// Whether one text comes before another.
pub fn is_text_before(a: &str, b: &str) -> (r: bool)
    ensures
        r == text_before(a@, b@),
{
    let x = to_chars(a);
    let y = to_chars(b);
    let mut i: usize = 0;
    assert(x@.skip(0) =~= x@);
    assert(y@.skip(0) =~= y@);
    while i < x.len() && i < y.len() && x[i] == y[i]
        invariant
            i <= x.len(),
            i <= y.len(),
            text_before(x@, y@) == text_before(x@.skip(i as int), y@.skip(i as int)),
        decreases x.len() - i,
    {
        assert(x@.skip(i as int).drop_first() =~= x@.skip(i + 1));
        assert(y@.skip(i as int).drop_first() =~= y@.skip(i + 1));
        i += 1;
    }
    if i == y.len() {
        false
    } else if i == x.len() {
        true
    } else {
        x[i] < y[i]
    }
}

/// A key to sort by: a total order, with ties only between equal keys.
pub trait SortKey: Sized {
    /// Whether this key comes strictly before the other.
    spec fn before(self, other: Self) -> bool;

    /// Two keys neither of which comes before the other are tied; being tied
    /// or before is transitive.
    proof fn order_law(a: Self, b: Self, c: Self)
        ensures
            a.before(b) ==> !b.before(a),
            !b.before(a) && !c.before(b) ==> !c.before(a),
    ;

    /// Whether this key comes strictly before the other.
    fn is_before(&self, other: &Self) -> (r: bool)
        ensures
            r == self.before(*other),
    ;
}

/// Whether the item at `a` stands before the item at `b` in a stable sort:
/// its key comes first or, of tied keys, it stood first.
pub open spec fn precedes<K: SortKey>(keys: Seq<K>, a: int, b: int) -> bool {
    keys[a].before(keys[b]) || (!keys[b].before(keys[a]) && a < b)
}

/// Whether `order` lists the places `0..n`, each once.
pub open spec fn is_arrangement(order: Seq<usize>, n: nat) -> bool {
    &&& order.len() == n
    &&& forall|i: int| 0 <= i < n ==> (#[trigger] order[i]) < n
    &&& forall|i: int, j: int|
        0 <= i < j < n ==> #[trigger] order[i] != #[trigger] order[j]
}

/// Whether `order` is the stable sort of the places of `keys`.
pub open spec fn is_stable_order<K: SortKey>(keys: Seq<K>, order: Seq<usize>) -> bool {
    &&& is_arrangement(order, keys.len())
    &&& forall|i: int, j: int|
        0 <= i < j < order.len() ==> precedes(
            keys,
            (#[trigger] order[i]) as int,
            (#[trigger] order[j]) as int,
        )
}

/// The places of `keys` in the order of a stable sort.
pub fn stable_order<K: SortKey>(keys: &Vec<K>) -> (order: Vec<usize>)
    ensures
        is_stable_order(keys@, order@),
{
    let mut order: Vec<usize> = Vec::new();
    let mut n: usize = 0;
    while n < keys.len()
        invariant
            n <= keys.len(),
            is_arrangement(order@, n as nat),
            forall|i: int, j: int|
                0 <= i < j < order.len() ==> precedes(
                    keys@,
                    (#[trigger] order@[i]) as int,
                    (#[trigger] order@[j]) as int,
                ),
        decreases keys.len() - n,
    {
        let mut at: usize = 0;
        while at < order.len() && !keys[n].is_before(&keys[order[at]])
            invariant
                n < keys.len(),
                at <= order.len(),
                order.len() == n,
                forall|i: int| 0 <= i < n ==> (#[trigger] order@[i]) < n,
                forall|i: int|
                    0 <= i < at ==> !keys@[n as int].before(keys@[#[trigger] order@[i] as int]),
            decreases order.len() - at,
        {
            at += 1;
        }
        let ghost was = order@;
        order.insert(at, n);
        assert(order@ =~= was.insert(at as int, n));
        assert forall|i: int, j: int| 0 <= i < j < order.len() implies precedes(
            keys@,
            (#[trigger] order@[i]) as int,
            (#[trigger] order@[j]) as int,
        ) by {
            if j == at {
                assert(order@[i] == was[i]);
                K::order_law(keys@[was[i] as int], keys@[n as int], keys@[n as int]);
            } else if i == at {
                assert(order@[j] == was[j - 1]);
                let k = keys@[n as int];
                let p = keys@[was[at as int] as int];
                let q = keys@[was[j - 1] as int];
                if at < j - 1 {
                    assert(precedes(keys@, was[at as int] as int, was[j - 1] as int));
                }
                K::order_law(p, q, k);
                K::order_law(q, p, k);
                K::order_law(k, p, q);
            } else {
                let a = if i < at {
                    i
                } else {
                    i - 1
                };
                let b = if j < at {
                    j
                } else {
                    j - 1
                };
                assert(order@[i] == was[a]);
                assert(order@[j] == was[b]);
            }
        }
        assert forall|i: int, j: int| 0 <= i < j < order.len() implies #[trigger] order@[i]
            != #[trigger] order@[j] by {
            let a = if i < at {
                i
            } else {
                i - 1
            };
            let b = if j < at {
                j
            } else {
                j - 1
            };
            if i != at && j != at {
                assert(order@[i] == was[a]);
                assert(order@[j] == was[b]);
            }
        }
        n += 1;
    }
    order
}

/// The stable sort is unique: two of the same keys are the same list.
pub proof fn stable_order_is_unique<K: SortKey>(keys: Seq<K>, a: Seq<usize>, b: Seq<usize>)
    requires
        is_stable_order(keys, a),
        is_stable_order(keys, b),
    ensures
        a == b,
{
    lemma_orders_agree(keys, a, b, a.len() as int);
    assert(a.take(a.len() as int) =~= a);
    assert(b.take(b.len() as int) =~= b);
}

/// An arrangement holds every place.
pub proof fn lemma_arrangement_covers(order: Seq<usize>, n: nat, v: usize)
    requires
        is_arrangement(order, n),
        v < n,
    ensures
        exists|i: int| 0 <= i < n && order[i] == v,
{
    let ints = Seq::new(n, |i: int| order[i] as int);
    let range = vstd::set_lib::set_int_range(0, n as int);
    vstd::set_lib::lemma_int_range(0, n as int);
    assert(ints.no_duplicates());
    ints.unique_seq_to_set();
    assert(ints.to_set().subset_of(range)) by {
        assert forall|x: int| ints.to_set().contains(x) implies range.contains(x) by {
            assert(ints.contains(x));
        }
    }
    vstd::set_lib::lemma_subset_equality(ints.to_set(), range);
    assert(range.contains(v as int));
    assert(ints.contains(v as int));
}

proof fn lemma_orders_agree<K: SortKey>(keys: Seq<K>, a: Seq<usize>, b: Seq<usize>, m: int)
    requires
        is_stable_order(keys, a),
        is_stable_order(keys, b),
        0 <= m <= keys.len(),
    ensures
        a.take(m) == b.take(m),
    decreases m,
{
    if m > 0 {
        lemma_orders_agree(keys, a, b, m - 1);
        let p = m - 1;
        if a[p] != b[p] {
            lemma_arrangement_covers(a, keys.len(), b[p]);
            lemma_arrangement_covers(b, keys.len(), a[p]);
            let i = choose|i: int| 0 <= i < keys.len() && a[i] == b[p];
            let j = choose|j: int| 0 <= j < keys.len() && b[j] == a[p];
            assert forall|k: int| 0 <= k < p implies a[k] == b[k] by {
                assert(a.take(p)[k] == b.take(p)[k]);
            }
            assert(i > p);
            assert(j > p);
            assert(precedes(keys, a[p] as int, a[i] as int));
            assert(precedes(keys, b[p] as int, b[j] as int));
            let x = keys[a[p] as int];
            let y = keys[b[p] as int];
            K::order_law(x, y, x);
        }
        assert(a.take(m) =~= a.take(p).push(a[p]));
        assert(b.take(m) =~= b.take(p).push(b[p]));
    }
}

} // verus!
