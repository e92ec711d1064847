//! Counting how often numbers occur.
use crate::order::insert_ascending;
use std::collections::HashMap;
use vstd::prelude::*;
#[allow(unused_imports)]
use vstd::std_specs::iter::IteratorSpec;

verus! {

/// How often a number occurs.
pub open spec fn times(items: Seq<u64>, k: u64) -> nat
    decreases items.len(),
{
    if items.len() == 0 {
        0
    } else {
        times(items.drop_last(), k) + (if items.last() == k {
            1nat
        } else {
            0
        })
    }
}

/// Whether a map holds each number that occurs, and how often it does.
pub open spec fn tallies(counts: Map<u64, usize>, items: Seq<u64>) -> bool {
    forall|k: u64|
        {
            &&& #[trigger] counts.contains_key(k) <==> times(items, k) > 0
            &&& counts.contains_key(k) ==> counts[k] == times(items, k)
        }
}

/// Whether `keys` are the keys of a map in ascending order.
pub open spec fn lists_keys(counts: Map<u64, usize>, keys: Seq<u64>) -> bool {
    &&& crate::order::ascending(keys)
    &&& forall|k: u64| #[trigger] keys.contains(k) <==> counts.contains_key(k)
}

/// The keys of a map can be listed in one way only.
pub proof fn listing_is_unique(counts: Map<u64, usize>, a: Seq<u64>, b: Seq<u64>)
    requires
        lists_keys(counts, a),
        lists_keys(counts, b),
    ensures
        a == b,
    decreases a.len(),
{
    if a.len() == 0 {
        if b.len() > 0 {
            assert(b.contains(b[0]));
            assert(a.contains(b[0]));
        }
        assert(a =~= b);
    } else {
        let top = a.last();
        assert(a.contains(top));
        assert(b.contains(top));
        let k = choose|k: int| 0 <= k < b.len() && b[k] == top;
        assert(a.contains(b.last())) by {
            assert(b[b.len() - 1] == b.last());
            assert(b.contains(b.last()));
        }
        let l = choose|l: int| 0 <= l < a.len() && a[l] == b.last();
        if k < b.len() - 1 {
            assert(b[k] < b[b.len() - 1]);
        }
        if l < a.len() - 1 {
            assert(a[l] < a[a.len() - 1]);
        }
        assert(b.last() == top);
        let fewer = counts.remove(top);
        lists_fewer(counts, a);
        lists_fewer(counts, b);
        listing_is_unique(fewer, a.drop_last(), b.drop_last());
        assert(a =~= a.drop_last().push(top));
        assert(b =~= b.drop_last().push(top));
    }
}

proof fn lists_fewer(counts: Map<u64, usize>, keys: Seq<u64>)
    requires
        lists_keys(counts, keys),
        keys.len() > 0,
    ensures
        lists_keys(counts.remove(keys.last()), keys.drop_last()),
{
    let shorter = keys.drop_last();
    let fewer = counts.remove(keys.last());
    assert forall|k: u64| #[trigger] shorter.contains(k) <==> fewer.contains_key(k) by {
        if shorter.contains(k) {
            let i = choose|i: int| 0 <= i < shorter.len() && shorter[i] == k;
            assert(keys[i] == k);
            assert(keys.contains(k));
            assert(keys[i] < keys[keys.len() - 1]);
        }
        if fewer.contains_key(k) {
            assert(keys.contains(k));
            let i = choose|i: int| 0 <= i < keys.len() && keys[i] == k;
            assert(shorter[i] == k);
        }
    }
}

/// Count one more occurrence of `k`, the last of `items`.
pub(crate) fn count_one(counts: &mut HashMap<u64, usize>, k: u64, Ghost(items): Ghost<Seq<u64>>)
    requires
        tallies(old(counts)@, items),
        items.len() < usize::MAX,
    ensures
        tallies(final(counts)@, items.push(k)),
{
    broadcast use vstd::std_specs::hash::group_hash_axioms;

    proof {
        times_bounded(items, k);
    }
    let seen: usize = match counts.get(&k) {
        Some(n) => *n,
        None => 0,
    };
    let _ = counts.insert(k, seen + 1);
    proof {
        let longer = items.push(k);
        assert(longer.drop_last() =~= items);
        assert forall|j: u64|
            {
                &&& #[trigger] counts@.contains_key(j) <==> times(longer, j) > 0
                &&& counts@.contains_key(j) ==> counts@[j] == times(longer, j)
            } by {
            assert(old(counts)@.contains_key(j) <==> times(items, j) > 0);
        }
    }
}

proof fn times_bounded(items: Seq<u64>, k: u64)
    ensures
        times(items, k) <= items.len(),
    decreases items.len(),
{
    if items.len() > 0 {
        times_bounded(items.drop_last(), k);
    }
}

/// The keys of a map, in ascending order.
pub(crate) fn sorted_keys(counts: &HashMap<u64, usize>) -> (r: Vec<u64>)
    ensures
        lists_keys(counts@, r@),
{
    broadcast use vstd::std_specs::hash::group_hash_axioms;

    let mut r: Vec<u64> = Vec::new();
    let ghost all = vstd::std_specs::hash::spec_keys_iter(counts).remaining().unref();
    for key in iter: counts.keys()
        invariant
            crate::order::ascending(r@),
            iter.seq().no_duplicates(),
            iter.seq().unref() == all,
            all.to_set() == counts@.dom(),
            forall|x: u64| #[trigger]
                r@.contains(x) <==> all.take(iter.index() as int).contains(x),
    {
        proof {
            let i = iter.index() as int;
            assert(all[i] == *key);
            assert forall|j: int, k: int| 0 <= j < k < all.len() implies all[j] != all[k] by {
                assert(iter.seq()[j] != iter.seq()[k]);
            }
            if all.take(i).contains(*key) {
                let j = choose|j: int| 0 <= j < i && all.take(i)[j] == *key;
                assert(all[j] == all[i]);
            }
            assert forall|x: u64| #[trigger]
                all.take(i + 1).contains(x) <==> all.take(i).contains(x) || x == *key by {
                let t = all.take(i + 1);
                if all.take(i).contains(x) {
                    let j = choose|j: int| 0 <= j < i && all.take(i)[j] == x;
                    assert(t[j] == x);
                }
                assert(t[i] == *key);
                if t.contains(x) && x != *key {
                    let j = choose|j: int| 0 <= j < t.len() && t[j] == x;
                    assert(all.take(i)[j] == x);
                }
            }
        }
        insert_ascending(&mut r, *key);
    }
    proof {
        assert(all.take(all.len() as int) =~= all);
        assert forall|k: u64| #[trigger] r@.contains(k) <==> counts@.contains_key(k) by {
            assert(all.contains(k) <==> all.to_set().contains(k));
        }
    }
    r
}

} // verus!
