//! Stable sorting by an integer key, largest key first.
//!
//! The sorted sequence is defined item by item: each item goes behind every
//! item whose key is above its own and in front of the items of its own key
//! that came after it. What follows from that definition (nothing is lost,
//! the keys descend, ties keep their order) is proved below.

use vstd::prelude::*;
use vstd::seq_lib::to_multiset_insert;

verus! {

/// The keys of `s` never rise from one item to the next.
pub open spec fn is_desc<T>(s: Seq<T>, key: spec_fn(T) -> int) -> bool {
    forall|i: int, j: int| #![trigger s[i], s[j]] 0 <= i < j < s.len() ==> key(s[i]) >= key(s[j])
}

/// How many items at the head of `sorted` have a key above `k`.
pub open spec fn rank_desc<T>(sorted: Seq<T>, k: int, key: spec_fn(T) -> int) -> int
    decreases sorted.len(),
{
    if sorted.len() == 0 || key(sorted[0]) <= k {
        0
    } else {
        1 + rank_desc(sorted.skip(1), k, key)
    }
}

/// `s` in descending order of `key`; items of equal key stay in the order
/// in which `s` has them.
pub open spec fn sort_desc<T>(s: Seq<T>, key: spec_fn(T) -> int) -> Seq<T>
    decreases s.len(),
{
    if s.len() == 0 {
        Seq::empty()
    } else {
        let rest = sort_desc(s.skip(1), key);
        rest.insert(rank_desc(rest, key(s[0]), key), s[0])
    }
}

/// The test for an item's key being `k`.
pub open spec fn has_key<T>(k: int, key: spec_fn(T) -> int) -> spec_fn(T) -> bool {
    |x: T| key(x) == k
}

/// The items with key `k`, in the order in which `s` has them.
pub open spec fn with_key<T>(s: Seq<T>, k: int, key: spec_fn(T) -> int) -> Seq<T> {
    s.filter(has_key(k, key))
}

/// `rank_desc` stops at the first item whose key is not above `k`.
pub proof fn lemma_rank_desc<T>(sorted: Seq<T>, k: int, key: spec_fn(T) -> int)
    ensures
        0 <= rank_desc(sorted, k, key) <= sorted.len(),
        forall|i: int| 0 <= i < rank_desc(sorted, k, key) ==> key(#[trigger] sorted[i]) > k,
        rank_desc(sorted, k, key) < sorted.len() ==> key(sorted[rank_desc(sorted, k, key)]) <= k,
    decreases sorted.len(),
{
    if sorted.len() == 0 || key(sorted[0]) <= k {
    } else {
        let tail = sorted.skip(1);
        lemma_rank_desc(tail, k, key);
        let r = rank_desc(tail, k, key);
        assert forall|i: int| 0 <= i < r + 1 implies key(#[trigger] sorted[i]) > k by {
            if i > 0 {
                assert(tail[i - 1] == sorted[i]);
            }
        }
        if r + 1 < sorted.len() {
            assert(tail[r] == sorted[r + 1]);
        }
    }
}

/// A position that splits `sorted` as `rank_desc` does is `rank_desc`.
pub proof fn lemma_rank_desc_is<T>(sorted: Seq<T>, k: int, key: spec_fn(T) -> int, p: int)
    requires
        0 <= p <= sorted.len(),
        forall|i: int| 0 <= i < p ==> key(#[trigger] sorted[i]) > k,
        p < sorted.len() ==> key(sorted[p]) <= k,
    ensures
        rank_desc(sorted, k, key) == p,
    decreases sorted.len(),
{
    if p > 0 {
        let tail = sorted.skip(1);
        assert(key(sorted[0]) > k);
        assert forall|i: int| 0 <= i < p - 1 implies key(#[trigger] tail[i]) > k by {
            assert(tail[i] == sorted[i + 1]);
        }
        if p - 1 < tail.len() {
            assert(tail[p - 1] == sorted[p]);
        }
        lemma_rank_desc_is(tail, k, key, p - 1);
    }
}

/// Sorting loses nothing and adds nothing: the result has the items of `s`,
/// each as often as `s` has it.
pub proof fn lemma_sort_desc_permutes<T>(s: Seq<T>, key: spec_fn(T) -> int)
    ensures
        sort_desc(s, key).to_multiset() == s.to_multiset(),
        sort_desc(s, key).len() == s.len(),
    decreases s.len(),
{
    broadcast use vstd::seq_lib::group_to_multiset_ensures;

    if s.len() == 0 {
        assert(s =~= Seq::<T>::empty());
    } else {
        let tail = s.skip(1);
        let rest = sort_desc(tail, key);
        lemma_sort_desc_permutes(tail, key);
        let p = rank_desc(rest, key(s[0]), key);
        lemma_rank_desc(rest, key(s[0]), key);
        to_multiset_insert(rest, p, s[0]);
        to_multiset_insert(tail, 0, s[0]);
        assert(tail.insert(0, s[0]) =~= s);
    }
}

/// Sorting keeps the items: what is in the result is in `s`, and the other
/// way round.
pub proof fn lemma_sort_desc_same_items<T>(s: Seq<T>, key: spec_fn(T) -> int)
    ensures
        forall|x: T| sort_desc(s, key).contains(x) <==> s.contains(x),
        forall|i: int| 0 <= i < s.len() ==> sort_desc(s, key).contains(#[trigger] s[i]),
        forall|i: int|
            0 <= i < sort_desc(s, key).len() ==> s.contains(#[trigger] sort_desc(s, key)[i]),
{
    broadcast use vstd::seq_lib::group_to_multiset_ensures;

    lemma_sort_desc_permutes(s, key);
    let sorted = sort_desc(s, key);
    assert forall|x: T| sorted.contains(x) <==> s.contains(x) by {
        assert(sorted.to_multiset().count(x) == s.to_multiset().count(x));
    }
    assert forall|i: int| 0 <= i < s.len() implies sorted.contains(#[trigger] s[i]) by {
        assert(s.contains(s[i]));
    }
    assert forall|i: int| 0 <= i < sorted.len() implies s.contains(#[trigger] sorted[i]) by {
        assert(sorted.contains(sorted[i]));
    }
}

/// No two items of `s` have the same `tag`.
pub open spec fn distinct_by<T>(s: Seq<T>, tag: spec_fn(T) -> int) -> bool {
    forall|i: int, j: int|
        #![trigger s[i], s[j]]
        0 <= i < j < s.len() ==> tag(s[i]) != tag(s[j])
}

/// Sorting items of distinct tags leaves their tags distinct.
pub proof fn lemma_sort_desc_keeps_distinct<T>(
    s: Seq<T>,
    key: spec_fn(T) -> int,
    tag: spec_fn(T) -> int,
)
    requires
        distinct_by(s, tag),
    ensures
        distinct_by(sort_desc(s, key), tag),
    decreases s.len(),
{
    if s.len() > 0 {
        let tail = s.skip(1);
        let rest = sort_desc(tail, key);
        assert(distinct_by(tail, tag)) by {
            assert forall|i: int, j: int| 0 <= i < j < tail.len() implies tag(#[trigger] tail[i])
                != tag(#[trigger] tail[j]) by {
                assert(tail[i] == s[i + 1] && tail[j] == s[j + 1]);
            }
        }
        lemma_sort_desc_keeps_distinct(tail, key, tag);
        lemma_sort_desc_same_items(tail, key);
        let p = rank_desc(rest, key(s[0]), key);
        lemma_rank_desc(rest, key(s[0]), key);
        let out = rest.insert(p, s[0]);
        assert forall|i: int| 0 <= i < rest.len() implies tag(#[trigger] rest[i]) != tag(s[0]) by {
            assert(tail.contains(rest[i]));
            let j = choose|j: int| 0 <= j < tail.len() && tail[j] == rest[i];
            assert(tail[j] == s[j + 1]);
        }
        assert forall|i: int, j: int| 0 <= i < j < out.len() implies tag(#[trigger] out[i]) != tag(
            #[trigger] out[j],
        ) by {
            let a = if i < p { i } else { i - 1 };
            let b = if j < p { j } else { j - 1 };
            if i != p {
                assert(out[i] == rest[a]);
            }
            if j != p {
                assert(out[j] == rest[b]);
            }
        }
    }
}

/// The keys of a sorted sequence descend.
pub proof fn lemma_sort_desc_descends<T>(s: Seq<T>, key: spec_fn(T) -> int)
    ensures
        is_desc(sort_desc(s, key), key),
    decreases s.len(),
{
    if s.len() > 0 {
        let rest = sort_desc(s.skip(1), key);
        lemma_sort_desc_descends(s.skip(1), key);
        let k = key(s[0]);
        let p = rank_desc(rest, k, key);
        lemma_rank_desc(rest, k, key);
        let out = rest.insert(p, s[0]);
        assert forall|i: int, j: int| 0 <= i < j < out.len() implies key(#[trigger] out[i]) >= key(
            #[trigger] out[j],
        ) by {
            if j < p {
                assert(out[i] == rest[i] && out[j] == rest[j]);
            } else if j == p {
                assert(out[i] == rest[i]);
            } else if i < p {
                assert(out[i] == rest[i] && out[j] == rest[j - 1]);
                assert(key(rest[i]) > k);
                if p < j - 1 {
                    assert(key(rest[p]) >= key(rest[j - 1]));
                }
            } else if i == p {
                assert(out[j] == rest[j - 1]);
                if p < j - 1 {
                    assert(key(rest[p]) >= key(rest[j - 1]));
                }
            } else {
                assert(out[i] == rest[i - 1] && out[j] == rest[j - 1]);
            }
        }
    }
}

/// Sorting is stable: the items of any one key come out in the order in
/// which they went in.
pub proof fn lemma_sort_desc_stable<T>(s: Seq<T>, key: spec_fn(T) -> int, k: int)
    ensures
        with_key(sort_desc(s, key), k, key) == with_key(s, k, key),
    decreases s.len(),
{
    let pred = has_key(k, key);
    if s.len() == 0 {
        assert(s =~= Seq::<T>::empty());
    } else {
        let tail = s.skip(1);
        let rest = sort_desc(tail, key);
        lemma_sort_desc_stable(tail, key, k);
        let p = rank_desc(rest, key(s[0]), key);
        lemma_rank_desc(rest, key(s[0]), key);
        let head = rest.take(p);
        let back = rest.skip(p);
        let one = seq![s[0]];
        assert(rest.insert(p, s[0]) =~= head + one + back);
        assert(rest =~= head + back);
        assert(s =~= one + tail);
        Seq::filter_distributes_over_add(head + one, back, pred);
        Seq::filter_distributes_over_add(head, one, pred);
        Seq::filter_distributes_over_add(head, back, pred);
        Seq::filter_distributes_over_add(one, tail, pred);
        lemma_filter_of_one(s[0], pred);
        if key(s[0]) == k {
            assert forall|i: int| 0 <= i < head.len() implies !pred(#[trigger] head[i]) by {
                assert(head[i] == rest[i]);
            }
            head.lemma_all_neg_filter_empty(pred);
            assert(head.filter(pred) =~= Seq::<T>::empty());
        }
        assert(with_key(rest.insert(p, s[0]), k, key) =~= with_key(s, k, key));
    }
}

/// Filtering a single item keeps it or leaves nothing.
proof fn lemma_filter_of_one<T>(x: T, pred: spec_fn(T) -> bool)
    ensures
        seq![x].filter(pred) == if pred(x) {
            seq![x]
        } else {
            Seq::<T>::empty()
        },
{
    reveal(Seq::filter);
    let one = seq![x];
    assert(one.drop_last() =~= Seq::<T>::empty());
    assert(one.drop_last().filter(pred) =~= Seq::<T>::empty());
    assert(one.last() == x);
    if pred(x) {
        assert(one.filter(pred) =~= seq![x]);
    }
}

/// Sorts `items` by the keys handed in beside them: `keys[i]` is the key of
/// `items[i]`.
pub(crate) fn sort_by_keys<T>(items: Vec<T>, keys: Vec<i64>, Ghost(key): Ghost<
    spec_fn(T) -> int,
>) -> (sorted: Vec<T>)
    requires
        keys.len() == items.len(),
        forall|i: int| 0 <= i < items.len() ==> keys[i] as int == key(#[trigger] items[i]),
    ensures
        sorted@ == sort_desc(items@, key),
{
    let ghost all = items@;
    let mut waiting = items;
    let mut waiting_keys = keys;
    let mut placed: Vec<T> = Vec::new();
    let mut placed_keys: Vec<i64> = Vec::new();
    proof {
        assert(all.skip(all.len() as int) =~= Seq::<T>::empty());
        assert(all.take(all.len() as int) =~= all);
    }
    while waiting.len() > 0
        invariant
            waiting.len() == waiting_keys.len(),
            waiting.len() <= all.len(),
            waiting@ == all.take(waiting.len() as int),
            forall|i: int|
                0 <= i < waiting_keys.len() ==> waiting_keys[i] as int == key(#[trigger] all[i]),
            placed@ == sort_desc(all.skip(waiting.len() as int), key),
            placed_keys.len() == placed.len(),
            forall|i: int|
                0 <= i < placed.len() ==> placed_keys[i] as int == key(#[trigger] placed[i]),
        decreases waiting.len(),
    {
        let ghost n = waiting.len() as int;
        let x = waiting.pop().unwrap();
        let kx = waiting_keys.pop().unwrap();
        let mut p: usize = 0;
        while p < placed.len() && placed_keys[p] > kx
            invariant
                p <= placed.len(),
                placed_keys.len() == placed.len(),
                forall|i: int| 0 <= i < p ==> placed_keys[i] > kx,
            decreases placed.len() - p,
        {
            p += 1;
        }
        proof {
            let from = all.skip(n - 1);
            assert(x == all[n - 1]);
            assert(from[0] == x);
            assert(from.skip(1) =~= all.skip(n));
            assert(kx as int == key(x));
            assert forall|i: int| 0 <= i < p implies key(#[trigger] placed@[i]) > kx as int by {
                assert(placed_keys[i] > kx);
            }
            lemma_rank_desc_is(placed@, kx as int, key, p as int);
            assert(waiting@ =~= all.take(n - 1));
        }
        let ghost before = placed@;
        let ghost keys_before = placed_keys@;
        placed.insert(p, x);
        placed_keys.insert(p, kx);
        proof {
            assert forall|i: int| 0 <= i < placed.len() implies placed_keys[i] as int == key(
                #[trigger] placed[i],
            ) by {
                if i < p {
                    assert(placed[i] == before[i] && placed_keys[i] == keys_before[i]);
                } else if i > p {
                    assert(placed[i] == before[i - 1] && placed_keys[i] == keys_before[i - 1]);
                }
            }
        }
    }
    proof {
        assert(all.skip(0) =~= all);
    }
    placed
}

} // verus!
