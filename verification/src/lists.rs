//! Filtering lists in place, facts about filtered sequences, and the keys of
//! collections as lists.

use std::collections::HashMap;

use vstd::prelude::*;
use vstd::std_specs::hash::group_hash_axioms;

verus! {

broadcast use group_hash_axioms;

/// The keys of a map, each once.
pub fn keys_of<V>(map: &HashMap<u64, V>) -> (list: Vec<u64>)
    ensures
        list@.no_duplicates(),
        list@.to_set() == map@.dom(),
{
    let mut list: Vec<u64> = Vec::new();
    for key in keys: map.keys()
        invariant
            keys.seq().unref().to_set() == map@.dom(),
            keys.seq().unref().no_duplicates(),
            list@ == keys.seq().unref().take(keys.index() as int),
            keys.index() == keys.seq().len() ==> list@ == keys.seq().unref(),
    {
        list.push(*key);
    }
    list
}

/// Filtering drops exactly the one element that fails.
pub proof fn lemma_filter_drops_one<A>(s: Seq<A>, index: int, keep: spec_fn(A) -> bool)
    requires
        0 <= index < s.len(),
        !keep(s[index]),
        forall|j: int| #![trigger s[j]] 0 <= j < s.len() && j != index ==> keep(s[j]),
    ensures
        s.filter(keep) == s.remove(index),
    decreases s.len(),
{
    reveal(Seq::filter);
    if index == s.len() - 1 {
        assert forall|j: int| #![trigger s.drop_last()[j]] 0 <= j < s.drop_last().len() implies keep(s.drop_last()[j]) by {
            let _ = s[j];
        }
        lemma_filter_keeps_all(s.drop_last(), keep);
        assert(s.remove(index) =~= s.drop_last());
    } else {
        assert forall|j: int| #![trigger s.drop_last()[j]] 0 <= j < s.drop_last().len() && j != index implies keep(
            s.drop_last()[j],
        ) by {
            let _ = s[j];
        }
        lemma_filter_drops_one(s.drop_last(), index, keep);
        assert(s.remove(index) =~= s.drop_last().remove(index).push(s.last()));
    }
}

/// Filtering by a predicate that every element meets changes nothing.
pub proof fn lemma_filter_keeps_all<A>(s: Seq<A>, keep: spec_fn(A) -> bool)
    requires
        forall|j: int| #![trigger s[j]] 0 <= j < s.len() ==> keep(s[j]),
    ensures
        s.filter(keep) == s,
    decreases s.len(),
{
    reveal(Seq::filter);
    if s.len() > 0 {
        assert forall|j: int| #![trigger s.drop_last()[j]] 0 <= j < s.drop_last().len() implies keep(s.drop_last()[j]) by {
            let _ = s[j];
        }
        lemma_filter_keeps_all(s.drop_last(), keep);
        assert(s.drop_last().push(s.last()) =~= s);
    }
}

/// One more element under the filter.
pub proof fn lemma_filter_push<A>(s: Seq<A>, x: A, keep: spec_fn(A) -> bool)
    ensures
        s.push(x).filter(keep) == if keep(x) {
            s.filter(keep).push(x)
        } else {
            s.filter(keep)
        },
{
    reveal(Seq::filter);
    assert(s.push(x).drop_last() =~= s);
}

/// Every element of the filtered sequence stood in the whole one, in the same
/// order: distinct positions come from distinct positions.
pub proof fn lemma_filter_is_subsequence<A>(s: Seq<A>, keep: spec_fn(A) -> bool)
    ensures
        forall|i: int|
            #![trigger s.filter(keep)[i]]
            0 <= i < s.filter(keep).len() ==> keep(s.filter(keep)[i]) && exists|j: int|
                #![trigger s[j]]
                0 <= j < s.len() && s[j] == s.filter(keep)[i],
        forall|j: int|
            #![trigger s[j]]
            0 <= j < s.len() && keep(s[j]) ==> exists|i: int|
                #![trigger s.filter(keep)[i]]
                0 <= i < s.filter(keep).len() && s.filter(keep)[i] == s[j],
        s.filter(keep).len() <= s.len(),
    decreases s.len(),
{
    reveal(Seq::filter);
    if s.len() > 0 {
        let front = s.drop_last();
        lemma_filter_is_subsequence(front, keep);
        let kept = front.filter(keep);
        let all = s.filter(keep);
        assert forall|i: int| #![trigger all[i]] 0 <= i < all.len() implies keep(all[i]) && exists|j: int|
            #![trigger s[j]]
            0 <= j < s.len() && s[j] == all[i] by {
            if i < kept.len() {
                assert(all[i] == kept[i]);
                let j = choose|j: int| #![trigger front[j]] 0 <= j < front.len() && front[j] == kept[i];
                assert(s[j] == all[i]);
            } else {
                assert(s[s.len() - 1] == all[i]);
            }
        }
        assert forall|j: int| #![trigger s[j]] 0 <= j < s.len() && keep(s[j]) implies exists|i: int|
            #![trigger all[i]]
            0 <= i < all.len() && all[i] == s[j] by {
            if j < front.len() {
                assert(front[j] == s[j]);
                let i = choose|i: int| #![trigger kept[i]] 0 <= i < kept.len() && kept[i] == front[j];
                assert(all[i] == s[j]);
            } else {
                assert(all[all.len() - 1] == s[j]);
            }
        }
    }
}

/// Elements that differ pairwise under `key` still do after filtering.
pub proof fn lemma_filter_keeps_keys_distinct<A, K>(s: Seq<A>, keep: spec_fn(A) -> bool, key: spec_fn(A) -> K)
    requires
        forall|i: int, j: int| #![trigger s[i], s[j]] 0 <= i < j < s.len() ==> key(s[i]) != key(s[j]),
    ensures
        forall|i: int, j: int|
            #![trigger s.filter(keep)[i], s.filter(keep)[j]]
            0 <= i < j < s.filter(keep).len() ==> key(s.filter(keep)[i]) != key(s.filter(keep)[j]),
    decreases s.len(),
{
    reveal(Seq::filter);
    if s.len() > 0 {
        let front = s.drop_last();
        assert forall|i: int, j: int| #![trigger front[i], front[j]] 0 <= i < j < front.len() implies key(front[i]) != key(
            front[j],
        ) by {
            assert(key(s[i]) != key(s[j]));
        }
        lemma_filter_keeps_keys_distinct(front, keep, key);
        lemma_filter_is_subsequence(front, keep);
        let kept = front.filter(keep);
        let all = s.filter(keep);
        assert forall|i: int, j: int| #![trigger all[i], all[j]] 0 <= i < j < all.len() implies key(all[i]) != key(all[j]) by {
            assert(all[i] == kept[i]);
            if j < kept.len() {
                assert(all[j] == kept[j]);
            } else {
                let p = choose|p: int| #![trigger front[p]] 0 <= p < front.len() && front[p] == kept[i];
                assert(key(s[p]) != key(s[s.len() - 1]));
            }
        }
    }
}

/// Keep the elements that meet `keep`, in their order.
pub fn retain_where<T, F: Fn(&T) -> bool>(list: &mut Vec<T>, keep: F, Ghost(kept): Ghost<spec_fn(T) -> bool>)
    requires
        forall|x: &T| #[trigger] call_requires(keep, (x,)),
        forall|x: &T, b: bool| #[trigger] call_ensures(keep, (x,), b) ==> b == kept(*x),
    ensures
        final(list)@ == old(list)@.filter(kept),
{
    let ghost all = list@;
    let mut i: usize = 0;
    let ghost mut seen: int = 0;
    proof {
        reveal(Seq::filter);
        assert(all.take(0).filter(kept) + all.skip(0) =~= all);
    }
    while i < list.len()
        invariant
            forall|x: &T| #[trigger] call_requires(keep, (x,)),
            forall|x: &T, b: bool| #[trigger] call_ensures(keep, (x,), b) ==> b == kept(*x),
            0 <= seen <= all.len(),
            list@ == all.take(seen).filter(kept) + all.skip(seen),
            i == all.take(seen).filter(kept).len(),
        decreases list@.len() - i,
    {
        proof {
            assert(list@[i as int] == all[seen]);
            assert(all.take(seen + 1) =~= all.take(seen).push(all[seen]));
            lemma_filter_push(all.take(seen), all[seen], kept);
        }
        let stays: bool = keep(&list[i]);
        if stays {
            proof {
                assert(list@ =~= all.take(seen + 1).filter(kept) + all.skip(seen + 1));
            }
            i += 1;
        } else {
            let _dropped: T = list.remove(i);
            proof {
                assert(list@ =~= all.take(seen + 1).filter(kept) + all.skip(seen + 1));
            }
        }
        proof {
            seen = seen + 1;
        }
    }
    proof {
        assert(all.take(seen) =~= all);
        assert(list@ =~= all.filter(kept));
    }
}

/// Strictly increasing.
pub open spec fn strictly_sorted(list: Seq<u64>) -> bool {
    forall|i: int, j: int| #![trigger list[i], list[j]] 0 <= i < j < list.len() ==> list[i] < list[j]
}

/// A set of numbers as a list, in increasing order.
pub open spec fn in_order(set: Set<u64>) -> Seq<u64> {
    choose|list: Seq<u64>| #![trigger strictly_sorted(list)] strictly_sorted(list) && list.to_set() == set
}

/// There is one way only to put a set in order.
pub proof fn lemma_in_order(list: Seq<u64>)
    requires
        strictly_sorted(list),
    ensures
        in_order(list.to_set()) == list,
{
    let other = in_order(list.to_set());
    assert(strictly_sorted(other) && other.to_set() == list.to_set());
    lemma_same_order(list, other);
}

proof fn lemma_same_order(list: Seq<u64>, other: Seq<u64>)
    requires
        strictly_sorted(list),
        strictly_sorted(other),
        list.to_set() == other.to_set(),
    ensures
        list == other,
    decreases list.len(),
{
    assert forall|value: u64|
        #![trigger list.contains(value)]
        #![trigger other.contains(value)]
        list.contains(value) == other.contains(value) by {
        assert(list.to_set().contains(value) == list.contains(value));
        assert(other.to_set().contains(value) == other.contains(value));
    }
    if list.len() == 0 {
        if other.len() > 0 {
            assert(other.contains(other[0]));
        }
        assert(list =~= other);
    } else {
        assert(list.contains(list[list.len() - 1]));
        assert(other.len() > 0);
        assert(other.contains(other[other.len() - 1]));
        let at = choose|i: int| 0 <= i < other.len() && other[i] == list[list.len() - 1];
        let back = choose|i: int| 0 <= i < list.len() && list[i] == other[other.len() - 1];
        assert(list.last() == other.last()) by {
            if at < other.len() - 1 {
                assert(other[at] < other[other.len() - 1]);
            }
            if back < list.len() - 1 {
                assert(list[back] < list[list.len() - 1]);
            }
        }
        let fewer = list.drop_last();
        let rest = other.drop_last();
        assert forall|value: u64| #[trigger] fewer.contains(value) == rest.contains(value) by {
            if fewer.contains(value) {
                let i = choose|i: int| 0 <= i < fewer.len() && fewer[i] == value;
                assert(list[i] == value && list[i] < list[list.len() - 1]);
                assert(list.contains(value));
                let j = choose|j: int| 0 <= j < other.len() && other[j] == value;
                assert(rest[j] == value);
            }
            if rest.contains(value) {
                let i = choose|i: int| 0 <= i < rest.len() && rest[i] == value;
                assert(other[i] == value && other[i] < other[other.len() - 1]);
                assert(other.contains(value));
                let j = choose|j: int| 0 <= j < list.len() && list[j] == value;
                assert(fewer[j] == value);
            }
        }
        assert forall|value: u64| #[trigger] fewer.to_set().contains(value) == rest.to_set().contains(value) by {
            assert(fewer.contains(value) == rest.contains(value));
        }
        assert(fewer.to_set() =~= rest.to_set());
        lemma_same_order(fewer, rest);
        assert(list =~= fewer.push(list.last()));
        assert(other =~= rest.push(other.last()));
    }
}

/// Keys as an ordered collection hands them out.
pub broadcast proof fn lemma_increasing_is_sorted(keys: Seq<&u64>)
    requires
        #[trigger] vstd::std_specs::btree::increasing_seq(keys),
    ensures
        strictly_sorted(keys.unref()),
{
    broadcast use vstd::laws_cmp::group_laws_cmp;

    assert(vstd::laws_cmp::obeys_cmp::<&u64>());
    let list = keys.unref();
    assert forall|i: int, j: int| #![trigger list[i], list[j]] 0 <= i < j < list.len() implies list[i] < list[j] by {
        assert(vstd::std_specs::cmp::OrdSpec::cmp_spec(&keys[i], &keys[j]) is Less);
    }
}

/// Add `value` to a strictly increasing list, unless it is there.
pub fn insert_sorted(list: &mut Vec<u64>, value: u64)
    requires
        strictly_sorted(old(list)@),
    ensures
        strictly_sorted(final(list)@),
        forall|x: u64| #[trigger] final(list)@.contains(x) <==> old(list)@.contains(x) || x == value,
{
    let ghost before = list@;
    let mut i: usize = 0;
    while i < list.len() && list[i] < value
        invariant
            i <= list@.len(),
            list@ == before,
            forall|j: int| #![trigger list@[j]] 0 <= j < i ==> list@[j] < value,
        decreases list@.len() - i,
    {
        i += 1;
    }
    if i < list.len() && list[i] == value {
        proof {
            assert(before[i as int] == value);
        }
        return ;
    }
    list.insert(i, value);
    proof {
        assert(list@ =~= before.insert(i as int, value));
        assert forall|x: u64| #[trigger] list@.contains(x) <==> before.contains(x) || x == value by {
            if before.contains(x) {
                let k = before.index_of(x);
                if k < i {
                    assert(list@[k] == x);
                } else {
                    assert(list@[k + 1] == x);
                }
            }
            if x == value {
                assert(list@[i as int] == x);
            }
            if list@.contains(x) && x != value {
                let k = list@.index_of(x);
                if k < i {
                    assert(before[k] == x);
                } else {
                    assert(before[k - 1] == x);
                }
            }
        }
    }
}

/// Split a list by a predicate, keeping both orders: those that meet it, and
/// the rest.
pub fn split_where<T, F: Fn(&T) -> bool>(list: Vec<T>, choose_it: F, Ghost(chosen): Ghost<spec_fn(T) -> bool>) -> (halves: (
    Vec<T>,
    Vec<T>,
))
    requires
        forall|x: &T| #[trigger] call_requires(choose_it, (x,)),
        forall|x: &T, b: bool| #[trigger] call_ensures(choose_it, (x,), b) ==> b == chosen(*x),
    ensures
        halves.0@ == list@.filter(chosen),
        halves.1@ == list@.filter(|x: T| !chosen(x)),
{
    let ghost all = list@;
    let ghost rest = |x: T| !chosen(x);
    let mut selected: Vec<T> = Vec::new();
    let mut others: Vec<T> = Vec::new();
    proof {
        reveal(Seq::filter);
        assert(all.take(0).filter(chosen) =~= Seq::<T>::empty());
        assert(all.take(0).filter(rest) =~= Seq::<T>::empty());
    }
    for item in iter: list.into_iter()
        invariant
            forall|x: &T| #[trigger] call_requires(choose_it, (x,)),
            forall|x: &T, b: bool| #[trigger] call_ensures(choose_it, (x,), b) ==> b == chosen(*x),
            iter.seq() == all,
            rest == (|x: T| !chosen(x)),
            selected@ == all.take(iter.index() as int).filter(chosen),
            others@ == all.take(iter.index() as int).filter(rest),
    {
        proof {
            let at = iter.index() as int;
            assert(all.take(at + 1) =~= all.take(at).push(all[at]));
            lemma_filter_push(all.take(at), all[at], chosen);
            lemma_filter_push(all.take(at), all[at], rest);
        }
        if choose_it(&item) {
            selected.push(item);
        } else {
            others.push(item);
        }
    }
    proof {
        assert(all.take(all.len() as int) =~= all);
    }
    (selected, others)
}

} // verus!
