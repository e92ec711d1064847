//! Lists of numbers in ascending order.
use vstd::prelude::*;

verus! {

/// Whether numbers are in ascending order, none twice.
pub open spec fn ascending(keys: Seq<u64>) -> bool {
    forall|i: int, j: int| 0 <= i < j < keys.len() ==> keys[i] < keys[j]
}

/// Insert a number where it belongs.
pub(crate) fn insert_ascending(keys: &mut Vec<u64>, key: u64)
    requires
        ascending(old(keys)@),
        !old(keys)@.contains(key),
    ensures
        ascending(final(keys)@),
        forall|x: u64| #[trigger]
            final(keys)@.contains(x) <==> old(keys)@.contains(x) || x == key,
{
    let ghost before = keys@;
    let mut at: usize = keys.len();
    while at > 0 && keys[at - 1] > key
        invariant
            keys@ == before,
            at <= before.len(),
            ascending(before),
            forall|k: int| at <= k < before.len() ==> before[k] > key,
        decreases at,
    {
        at = at - 1;
    }
    assert forall|k: int| 0 <= k < at implies before[k] < key by {
        assert(before[at - 1] <= key);
        assert(before.contains(before[at - 1]));
    }
    keys.insert(at, key);
    assert forall|x: u64| #[trigger] keys@.contains(x) <==> before.contains(x) || x == key by {
        if before.contains(x) {
            let k = choose|k: int| 0 <= k < before.len() && before[k] == x;
            if k < at {
                assert(keys@[k] == x);
            } else {
                assert(keys@[k + 1] == x);
            }
        }
        if x == key {
            assert(keys@[at as int] == x);
        }
        if keys@.contains(x) && x != key {
            let k = choose|k: int| 0 <= k < keys@.len() && keys@[k] == x;
            if k < at {
                assert(before[k] == x);
            } else {
                assert(before[k - 1] == x);
            }
        }
    }
}

} // verus!
