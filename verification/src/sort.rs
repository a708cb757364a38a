//! Stable sorting by a text key.
//!
//! A sort is described by the order in which it visits the positions of its
//! input: the one permutation that goes up in the keys and, among equal
//! keys, up in the positions.

use vstd::prelude::*;
use crate::text::{lemma_lex_le_total, lemma_lex_le_transitive, lex_le, precedes};

verus! {

/// `order` names each of the positions `0..n` once.
pub open spec fn is_permutation(order: Seq<int>, n: int) -> bool {
    &&& order.len() == n
    &&& forall|i: int| 0 <= i < n ==> 0 <= #[trigger] order[i] < n
    &&& forall|i: int, j: int| 0 <= i < j < n ==> order[i] != order[j]
}

/// Position `i` is visited before position `j`: its key comes first, or the
/// keys are equal and `i` is the earlier position.
pub open spec fn comes_before(keys: Seq<Seq<char>>, i: int, j: int) -> bool {
    &&& lex_le(keys[i], keys[j])
    &&& lex_le(keys[j], keys[i]) ==> i < j
}

/// `order` is the stable sorting order of the first `n` keys.
pub open spec fn is_stable_order_of(keys: Seq<Seq<char>>, n: int, order: Seq<int>) -> bool {
    &&& is_permutation(order, n)
    &&& forall|a: int, b: int| 0 <= a < b < n ==> comes_before(keys, #[trigger] order[a], #[trigger] order[b])
}

/// `order` is the stable sorting order of `keys`.
pub open spec fn is_stable_order(keys: Seq<Seq<char>>, order: Seq<int>) -> bool {
    is_stable_order_of(keys, keys.len() as int, order)
}

/// The stable sorting order of `keys`.
pub open spec fn stable_order_of(keys: Seq<Seq<char>>) -> Seq<int> {
    choose|order: Seq<int>| is_stable_order(keys, order)
}

/// The items visited in the given order.
pub open spec fn arranged<T>(items: Seq<T>, order: Seq<int>) -> Seq<T> {
    Seq::new(order.len(), |i: int| items[order[i]])
}

/// The items sorted by the keys that stand beside them, items of equal key
/// in the order given.
pub open spec fn sorted_by<T>(keys: Seq<Seq<char>>, items: Seq<T>) -> Seq<T> {
    arranged(items, stable_order_of(keys))
}

/// The positions held by a vector of indices.
pub open spec fn as_ints(order: Seq<usize>) -> Seq<int> {
    order.map_values(|i: usize| i as int)
}

/// The texts held by a vector of keys.
pub open spec fn key_views(keys: Seq<Vec<char>>) -> Seq<Seq<char>> {
    keys.map_values(|key: Vec<char>| key@)
}

/// A permutation of `0..n` names every position: it is onto.
pub proof fn lemma_permutation_reaches(order: Seq<int>, n: int, target: int)
    requires
        is_permutation(order, n),
        0 <= target < n,
    ensures
        exists|a: int| 0 <= a < n && order[a] == target,
{
    let named = order.to_set();
    let all = Set::new(|i: int| 0 <= i < n);
    assert(order.no_duplicates());
    order.unique_seq_to_set();
    assert(named.subset_of(all)) by {
        assert forall|v: int| named.contains(v) implies all.contains(v) by {
            let a = choose|a: int| 0 <= a < order.len() && order[a] == v;
            assert(0 <= order[a] < n);
        }
    }
    assert(all =~= vstd::set_lib::set_int_range(0, n));
    vstd::set_lib::lemma_int_range(0, n);
    vstd::set_lib::lemma_subset_equality(named, all);
    assert(named.contains(target));
}

/// Position `k` put into the stable order of the positions before it,
/// behind the last key that comes no later than its own, gives the stable
/// order of the positions up to `k`.
proof fn lemma_insert_extends(keys: Seq<Seq<char>>, k: int, before: Seq<int>, at: int)
    requires
        0 <= k < keys.len(),
        is_stable_order_of(keys, k, before),
        0 <= at <= k,
        at > 0 ==> lex_le(keys[before[at - 1]], keys[k]),
        forall|i: int| at <= i < k ==> !lex_le(keys[#[trigger] before[i]], keys[k]),
    ensures
        is_stable_order_of(keys, k + 1, before.insert(at, k)),
{
    let after = before.insert(at, k);
    assert forall|i: int| 0 <= i < k + 1 implies 0 <= #[trigger] after[i] < k + 1 by {
        if i < at {
            assert(after[i] == before[i]);
        } else if i > at {
            assert(after[i] == before[i - 1]);
        }
    }
    assert forall|i: int, j: int| 0 <= i < j < k + 1 implies after[i] != after[j] by {
        let old_i = if i < at { i } else { i - 1 };
        let old_j = if j < at { j } else { j - 1 };
        if i != at {
            assert(after[i] == before[old_i]);
            assert(0 <= before[old_i] < k);
        }
        if j != at {
            assert(after[j] == before[old_j]);
            assert(0 <= before[old_j] < k);
        }
    }
    assert forall|a: int, b: int| 0 <= a < b < k + 1 implies comes_before(keys, #[trigger] after[a], #[trigger] after[b]) by {
        if b < at {
            assert(after[a] == before[a] && after[b] == before[b]);
        } else if a > at {
            assert(after[a] == before[a - 1] && after[b] == before[b - 1]);
        } else if a < at && b > at {
            assert(after[a] == before[a] && after[b] == before[b - 1]);
        } else if b == at {
            assert(after[a] == before[a]);
            assert(0 <= before[a] < k);
            assert(0 <= before[at - 1] < k);
            if a < at - 1 {
                assert(comes_before(keys, before[a], before[at - 1]));
                lemma_lex_le_transitive(keys[before[a]], keys[before[at - 1]], keys[k]);
            }
        } else {
            assert(after[b] == before[b - 1]);
            assert(!lex_le(keys[before[b - 1]], keys[k]));
            lemma_lex_le_total(keys[before[b - 1]], keys[k]);
        }
    }
}

/// Where position `k` goes among the `upto` first places of `before`.
spec fn insertion_index(keys: Seq<Seq<char>>, before: Seq<int>, k: int, upto: int) -> int
    decreases upto,
{
    if upto > 0 && !lex_le(keys[before[upto - 1]], keys[k]) {
        insertion_index(keys, before, k, upto - 1)
    } else {
        upto
    }
}

proof fn lemma_insertion_index(keys: Seq<Seq<char>>, before: Seq<int>, k: int, upto: int)
    requires
        0 <= upto,
    ensures
        0 <= insertion_index(keys, before, k, upto) <= upto,
        insertion_index(keys, before, k, upto) > 0 ==> lex_le(
            keys[before[insertion_index(keys, before, k, upto) - 1]],
            keys[k],
        ),
        forall|i: int|
            insertion_index(keys, before, k, upto) <= i < upto ==> !lex_le(keys[#[trigger] before[i]], keys[k]),
    decreases upto,
{
    if upto > 0 && !lex_le(keys[before[upto - 1]], keys[k]) {
        lemma_insertion_index(keys, before, k, upto - 1);
    }
}

/// The first `n` keys have a stable sorting order.
proof fn lemma_stable_prefix_exists(keys: Seq<Seq<char>>, n: int)
    requires
        0 <= n <= keys.len(),
    ensures
        exists|order: Seq<int>| is_stable_order_of(keys, n, order),
    decreases n,
{
    if n == 0 {
        assert(is_stable_order_of(keys, 0, Seq::<int>::empty()));
    } else {
        let k = n - 1;
        lemma_stable_prefix_exists(keys, k);
        let before = choose|order: Seq<int>| is_stable_order_of(keys, k, order);
        let at = insertion_index(keys, before, k, k);
        lemma_insertion_index(keys, before, k, k);
        lemma_insert_extends(keys, k, before, at);
        assert(is_stable_order_of(keys, n, before.insert(at, k)));
    }
}

/// Every sequence of keys has a stable sorting order.
pub proof fn lemma_stable_order_exists(keys: Seq<Seq<char>>)
    ensures
        is_stable_order(keys, stable_order_of(keys)),
{
    let n = keys.len() as int;
    lemma_stable_prefix_exists(keys, n);
    let order = choose|order: Seq<int>| is_stable_order_of(keys, n, order);
    assert(is_stable_order(keys, order));
}

/// Two stable sorting orders of the same keys agree on their first `upto`
/// positions.
proof fn lemma_orders_agree(keys: Seq<Seq<char>>, first: Seq<int>, second: Seq<int>, upto: int)
    requires
        is_stable_order(keys, first),
        is_stable_order(keys, second),
        0 <= upto <= keys.len(),
    ensures
        forall|i: int| 0 <= i < upto ==> first[i] == second[i],
    decreases upto,
{
    if upto > 0 {
        lemma_orders_agree(keys, first, second, upto - 1);
        let n = keys.len() as int;
        let a = upto - 1;
        let x = first[a];
        let y = second[a];
        if x != y {
            assert(0 <= x < n && 0 <= y < n);
            lemma_permutation_reaches(second, n, x);
            let b = choose|b: int| 0 <= b < n && second[b] == x;
            if b < a {
                assert(first[b] == second[b]);
                assert(first[b] != first[a]);
            }
            assert(comes_before(keys, second[a], second[b]));
            lemma_permutation_reaches(first, n, y);
            let c = choose|c: int| 0 <= c < n && first[c] == y;
            if c < a {
                assert(first[c] == second[c]);
                assert(second[c] != second[a]);
            }
            assert(comes_before(keys, first[a], first[c]));
        }
    }
}

/// Keys have one stable sorting order only.
pub proof fn lemma_stable_order_unique(keys: Seq<Seq<char>>, order: Seq<int>)
    requires
        is_stable_order(keys, order),
    ensures
        order == stable_order_of(keys),
{
    lemma_orders_agree(keys, order, stable_order_of(keys), keys.len() as int);
    assert(order =~= stable_order_of(keys));
}

/// What a sort hands back goes up in the keys: the keys, sorted along with
/// the items, ascend.
pub proof fn lemma_sorted_ascends(keys: Seq<Seq<char>>)
    ensures
        sorted_by(keys, keys).len() == keys.len(),
        forall|a: int, b: int|
            0 <= a < b < keys.len() ==> lex_le(#[trigger] sorted_by(keys, keys)[a], #[trigger] sorted_by(keys, keys)[b]),
{
    lemma_stable_order_exists(keys);
    let order = stable_order_of(keys);
    assert forall|a: int, b: int| 0 <= a < b < keys.len() implies lex_le(
        #[trigger] sorted_by(keys, keys)[a],
        #[trigger] sorted_by(keys, keys)[b],
    ) by {
        assert(comes_before(keys, order[a], order[b]));
    }
}

/// What a sort hands back holds every item of the input, and nothing else.
pub proof fn lemma_sorted_keeps_items<T>(keys: Seq<Seq<char>>, items: Seq<T>)
    requires
        keys.len() == items.len(),
    ensures
        sorted_by(keys, items).len() == items.len(),
        forall|a: int| 0 <= a < items.len() ==> items.contains(#[trigger] sorted_by(keys, items)[a]),
        forall|i: int| 0 <= i < items.len() ==> sorted_by(keys, items).contains(#[trigger] items[i]),
{
    lemma_stable_order_exists(keys);
    let order = stable_order_of(keys);
    let output = sorted_by(keys, items);
    let n = items.len() as int;
    assert forall|a: int| 0 <= a < items.len() implies items.contains(#[trigger] output[a]) by {
        assert(0 <= order[a] < n);
        assert(items[order[a]] == output[a]);
    }
    assert forall|i: int| 0 <= i < items.len() implies output.contains(#[trigger] items[i]) by {
        lemma_permutation_reaches(order, n, i);
        let a = choose|a: int| 0 <= a < n && order[a] == i;
        assert(output[a] == items[i]);
    }
}

/// Sorting goes through a map of the items: the images of sorted items are
/// the sorted images.
pub proof fn lemma_sorted_map<T, U>(keys: Seq<Seq<char>>, items: Seq<T>, image: spec_fn(T) -> U)
    requires
        keys.len() == items.len(),
    ensures
        sorted_by(keys, items).map_values(image) == sorted_by(keys, items.map_values(image)),
{
    lemma_stable_order_exists(keys);
    let order = stable_order_of(keys);
    assert forall|a: int| 0 <= a < order.len() implies sorted_by(keys, items).map_values(image)[a] == sorted_by(
        keys,
        items.map_values(image),
    )[a] by {
        assert(0 <= order[a] < items.len());
    }
    assert(sorted_by(keys, items).map_values(image) =~= sorted_by(keys, items.map_values(image)));
}

/// Where key `k` goes among the positions sorted so far: behind the last
/// key that comes no later than it.
fn insertion_point(keys: &Vec<Vec<char>>, order: &Vec<usize>, k: usize) -> (at: usize)
    requires
        k < keys.len(),
        is_permutation(as_ints(order@), k as int),
    ensures
        at <= order.len(),
        at > 0 ==> lex_le(keys@[order@[at - 1] as int]@, keys@[k as int]@),
        forall|i: int| at <= i < order.len() ==> !lex_le(keys@[#[trigger] order@[i] as int]@, keys@[k as int]@),
{
    let mut at: usize = order.len();
    while at > 0
        invariant
            at <= order.len(),
            k < keys.len(),
            is_permutation(as_ints(order@), k as int),
            forall|i: int| at <= i < order.len() ==> !lex_le(keys@[#[trigger] order@[i] as int]@, keys@[k as int]@),
        decreases at,
    {
        let previous = order[at - 1];
        assert(0 <= as_ints(order@)[at - 1] < k);
        if precedes(&keys[previous], &keys[k]) {
            return at;
        }
        at -= 1;
    }
    at
}

/// The stable sorting order of `keys`.
pub fn stable_order(keys: &Vec<Vec<char>>) -> (order: Vec<usize>)
    ensures
        as_ints(order@) == stable_order_of(key_views(keys@)),
        is_stable_order(key_views(keys@), as_ints(order@)),
{
    let ghost texts = key_views(keys@);
    let mut order: Vec<usize> = Vec::new();
    let mut k: usize = 0;
    while k < keys.len()
        invariant
            k <= keys.len(),
            texts == key_views(keys@),
            is_stable_order_of(texts, k as int, as_ints(order@)),
        decreases keys.len() - k,
    {
        let at = insertion_point(keys, &order, k);
        let ghost before = as_ints(order@);
        order.insert(at, k);
        proof {
            assert(as_ints(order@) =~= before.insert(at as int, k as int));
            if at > 0 {
                assert(0 <= before[at - 1] < k);
            }
            assert forall|i: int| at <= i < k implies !lex_le(texts[#[trigger] before[i]], texts[k as int]) by {
                assert(0 <= before[i] < k);
            }
            lemma_insert_extends(texts, k as int, before, at as int);
        }
        k += 1;
    }
    proof {
        lemma_stable_order_unique(texts, as_ints(order@));
    }
    order
}

/// Each item wrapped in `Some`.
fn slots_of<T>(items: Vec<T>) -> (slots: Vec<Option<T>>)
    ensures
        slots@ == items@.map_values(|item: T| Some(item)),
{
    let mut slots: Vec<Option<T>> = Vec::new();
    for item in it: items
        invariant
            slots@ == it.seq().take(it.index() as int).map_values(|item: T| Some(item)),
    {
        slots.push(Some(item));
        assert(slots@ =~= it.seq().take(it.index() + 1).map_values(|item: T| Some(item)));
    }
    slots
}

/// The items in the given order.
pub fn arrange<T>(items: Vec<T>, order: &Vec<usize>) -> (out: Vec<T>)
    requires
        is_permutation(as_ints(order@), items.len() as int),
    ensures
        out@ == arranged(items@, as_ints(order@)),
{
    let ghost source = items@;
    let ghost visits = as_ints(order@);
    let mut slots = slots_of(items);
    let mut out: Vec<T> = Vec::new();
    let mut i: usize = 0;
    while i < order.len()
        invariant
            i <= order.len(),
            visits == as_ints(order@),
            is_permutation(visits, source.len() as int),
            slots.len() == source.len(),
            out.len() == i,
            forall|j: int| 0 <= j < i ==> out@[j] == source[visits[j]],
            forall|p: int|
                0 <= p < source.len() ==> (#[trigger] slots@[p] == Some(source[p]) || exists|j: int|
                    0 <= j < i && visits[j] == p),
        decreases order.len() - i,
    {
        let at = order[i];
        assert(visits[i as int] == at as int);
        assert(0 <= visits[i as int] < source.len());
        assert(slots@[at as int] == Some(source[at as int])) by {
            if exists|j: int| 0 <= j < i && visits[j] == at as int {
                let j = choose|j: int| 0 <= j < i && visits[j] == at as int;
                assert(visits[j] != visits[i as int]);
            }
        }
        let item = slots[at].take();
        out.push(item.unwrap());
        proof {
            assert forall|p: int| 0 <= p < source.len() implies (#[trigger] slots@[p] == Some(source[p])
                || exists|j: int| 0 <= j < i + 1 && visits[j] == p) by {
                if p == at as int {
                    assert(visits[i as int] == p);
                } else if !(slots@[p] == Some(source[p])) {
                    let j = choose|j: int| 0 <= j < i && visits[j] == p;
                    assert(0 <= j < i + 1 && visits[j] == p);
                }
            }
        }
        i += 1;
    }
    assert(out@ =~= arranged(source, visits));
    out
}

/// The items sorted by the keys that stand beside them, items of equal key
/// in the order given.
pub fn sort_by_keys<T>(items: Vec<T>, keys: &Vec<Vec<char>>) -> (out: Vec<T>)
    requires
        keys.len() == items.len(),
    ensures
        out@ == sorted_by(key_views(keys@), items@),
{
    let order = stable_order(keys);
    arrange(items, &order)
}

} // verus!
