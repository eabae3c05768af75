//! Sorting that keeps the order of equal items.
use vstd::prelude::*;

use crate::text::chars_lt;

verus! {

/// Something to sort by.
pub trait SortKey: Sized {
    /// Whether this key comes before the other.
    spec fn key_lt(self, other: Self) -> bool;

    /// No key comes before itself.
    proof fn irreflexive(a: Self)
        ensures
            !a.key_lt(a),
    ;

    /// What comes before a key comes before what follows it.
    proof fn transitive(a: Self, b: Self, c: Self)
        requires
            a.key_lt(b),
            b.key_lt(c),
        ensures
            a.key_lt(c),
    ;

    /// Keys of which neither comes before the other are interchangeable.
    proof fn negatively_transitive(a: Self, b: Self, c: Self)
        requires
            !a.key_lt(b),
            !b.key_lt(c),
        ensures
            !a.key_lt(c),
    ;

    fn less(&self, other: &Self) -> (r: bool)
        ensures
            r == self.key_lt(*other),
    ;
}

/// Whether item `a` goes before item `b`: by its key, and by its place where the keys do not tell.
pub open spec fn goes_before<K: SortKey>(keys: Seq<K>, a: int, b: int) -> bool {
    keys[a].key_lt(keys[b]) || (!keys[b].key_lt(keys[a]) && a < b)
}

/// The items at these indices, in this order, each go before the next ones.
pub open spec fn is_ordered<K: SortKey>(keys: Seq<K>, order: Seq<usize>) -> bool {
    &&& forall|i: int| 0 <= i < order.len() ==> (#[trigger] order[i]) < keys.len()
    &&& forall|i: int, j: int|
        0 <= i < j < order.len() ==> goes_before(keys, #[trigger] order[i] as int, #[trigger] order[j] as int)
}

/// The one order of all items in which each goes before the next ones.
pub open spec fn is_sorting<K: SortKey>(keys: Seq<K>, order: Seq<usize>) -> bool {
    order.len() == keys.len() && is_ordered(keys, order)
}

/// Finds the order that sorts items by their keys and leaves items with equal keys in place.
pub fn stable_order<K: SortKey>(keys: &Vec<K>) -> (r: Vec<usize>)
    ensures
        is_sorting(keys@, r@),
{
    let mut order: Vec<usize> = Vec::new();
    let mut i: usize = 0;
    while i < keys.len()
        invariant
            i <= keys.len(),
            order.len() == i,
            is_ordered(keys@, order@),
            forall|k: int| 0 <= k < order.len() ==> (#[trigger] order@[k]) < i,
        decreases keys.len() - i,
    {
        let mut p: usize = order.len();
        while p > 0 && keys[i].less(&keys[order[p - 1]])
            invariant
                p <= order.len() == i < keys.len(),
                forall|k: int| 0 <= k < order.len() ==> (#[trigger] order@[k]) < i,
                forall|k: int|
                    p <= k < order.len() ==> keys@[i as int].key_lt(
                        keys@[#[trigger] order@[k] as int],
                    ),
            decreases p,
        {
            p -= 1;
        }
        let ghost before = order@;
        order.insert(p, i);
        proof {
            let k = keys@;
            assert forall|x: int| 0 <= x < p implies goes_before(k, #[trigger] before[x] as int, i as int) by {
                let last = before[p - 1] as int;
                assert(!k[i as int].key_lt(k[last]));
                if x < p - 1 {
                    assert(goes_before(k, before[x] as int, before[p - 1] as int));
                    if k[i as int].key_lt(k[before[x] as int]) {
                        if k[before[x] as int].key_lt(k[last]) {
                            K::transitive(k[i as int], k[before[x] as int], k[last]);
                        } else if !k[last].key_lt(k[before[x] as int]) {
                            K::negatively_transitive(k[i as int], k[last], k[before[x] as int]);
                        }
                    }
                }
            }
            assert forall|a: int, b: int| 0 <= a < b < order.len() implies goes_before(
                k,
                #[trigger] order@[a] as int,
                #[trigger] order@[b] as int,
            ) by {
                let oa = if a < p {
                    before[a]
                } else if a == p {
                    i
                } else {
                    before[a - 1]
                };
                let ob = if b < p {
                    before[b]
                } else if b == p {
                    i
                } else {
                    before[b - 1]
                };
                assert(order@[a] == oa && order@[b] == ob);
            }
        }
        i += 1;
    }
    order
}

/// An order of all items is a rearrangement of them: every index stands in it exactly once.
pub proof fn sorting_is_a_rearrangement<K: SortKey>(keys: Seq<K>, order: Seq<usize>)
    requires
        is_sorting(keys, order),
    ensures
        order.no_duplicates(),
        forall|k: usize| k < keys.len() ==> order.contains(k),
{
    assert forall|i: int, j: int| 0 <= i < j < order.len() implies order[i] != order[j] by {
        assert(goes_before(keys, order[i] as int, order[j] as int));
        K::irreflexive(keys[order[i] as int]);
    }
    let there = order.map_values(|k: usize| k as int).to_set();
    let indices = vstd::set_lib::set_int_range(0, keys.len() as int);
    let ints = order.map_values(|k: usize| k as int);
    assert(ints.no_duplicates());
    ints.unique_seq_to_set();
    vstd::set_lib::lemma_int_range(0, keys.len() as int);
    assert(there.subset_of(indices)) by {
        assert forall|x: int| there.contains(x) implies indices.contains(x) by {
            let i = choose|i: int| 0 <= i < ints.len() && ints[i] == x;
            assert(order[i] < keys.len());
        }
    }
    vstd::set_lib::lemma_subset_equality(there, indices);
    assert forall|k: usize| k < keys.len() implies order.contains(k) by {
        assert(indices.contains(k as int));
        assert(there.contains(k as int));
        let i = choose|i: int| 0 <= i < ints.len() && ints[i] == k as int;
        assert(order[i] == k);
    }
}

/// The items of a list in an order.
pub open spec fn arranged<T>(items: Seq<T>, order: Seq<usize>) -> Seq<T> {
    Seq::new(order.len(), |i: int| items[order[i] as int])
}

// ---- texts as keys ----

/// A text to sort by, in the order of its code points.
pub struct TextKey {
    pub chars: Vec<char>,
}

/// No text comes before itself.
pub proof fn lemma_lex_irreflexive(a: Seq<char>)
    ensures
        !crate::text::lex_lt(a, a),
    decreases a.len(),
{
    if a.len() > 0 {
        lemma_lex_irreflexive(a.drop_first());
    }
}

/// What comes before an earlier text comes before a later one.
pub proof fn lemma_lex_transitive(a: Seq<char>, b: Seq<char>, c: Seq<char>)
    requires
        crate::text::lex_lt(a, b),
        crate::text::lex_lt(b, c),
    ensures
        crate::text::lex_lt(a, c),
    decreases a.len(),
{
    if a.len() > 0 && a[0] == b[0] && b[0] == c[0] {
        lemma_lex_transitive(a.drop_first(), b.drop_first(), c.drop_first());
    }
}

/// Not coming before is transitive too.
pub proof fn lemma_lex_negatively_transitive(a: Seq<char>, b: Seq<char>, c: Seq<char>)
    requires
        !crate::text::lex_lt(a, b),
        !crate::text::lex_lt(b, c),
    ensures
        !crate::text::lex_lt(a, c),
    decreases a.len(),
{
    if a.len() > 0 && b.len() > 0 && c.len() > 0 && a[0] == b[0] && b[0] == c[0] {
        lemma_lex_negatively_transitive(a.drop_first(), b.drop_first(), c.drop_first());
    }
}

/// Texts of which neither comes before the other are the same.
pub proof fn lex_is_total(a: Seq<char>, b: Seq<char>)
    ensures
        crate::text::lex_lt(a, b) || crate::text::lex_lt(b, a) || a == b,
    decreases a.len(),
{
    if a.len() > 0 && b.len() > 0 && a[0] == b[0] {
        lex_is_total(a.drop_first(), b.drop_first());
        if a.drop_first() == b.drop_first() {
            assert(a =~= seq![a[0]] + a.drop_first());
            assert(b =~= seq![b[0]] + b.drop_first());
        }
    } else if a.len() == 0 && b.len() == 0 {
        assert(a =~= b);
    }
}

impl SortKey for TextKey {
    open spec fn key_lt(self, other: TextKey) -> bool {
        crate::text::lex_lt(self.chars@, other.chars@)
    }

    proof fn irreflexive(a: TextKey) {
        lemma_lex_irreflexive(a.chars@);
    }

    proof fn transitive(a: TextKey, b: TextKey, c: TextKey) {
        lemma_lex_transitive(a.chars@, b.chars@, c.chars@);
    }

    proof fn negatively_transitive(a: TextKey, b: TextKey, c: TextKey) {
        lemma_lex_negatively_transitive(a.chars@, b.chars@, c.chars@);
    }

    fn less(&self, other: &TextKey) -> (r: bool) {
        chars_lt(&self.chars, &other.chars)
    }
}

} // verus!
