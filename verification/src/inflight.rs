//! Work sharing between the snapshots of one database: the registry of running
//! computations and the bounded cache of completed ones.
use crate::error::PicanteError;
use crate::key::{file_name, Dep, Key, QueryKindId};
#[allow(unused_imports)]
use crate::key::Node;
use crate::revision::Revision;
use crate::runtime::RuntimeId;
use crate::share::share;
use crate::table::SharedTable;
use std::collections::VecDeque;
use std::sync::Arc;
use vstd::bytes::u64_to_le_bytes;
use vstd::prelude::*;
use vstd::slice::slice_to_vec;
#[allow(unused_imports)]
use vstd::string::StringSliceAdditionalSpecFns;

verus! {

/// A completed derived-query result that other snapshots can adopt.
pub struct SharedCacheRecord<V> {
    /// The result.
    pub value: Arc<V>,
    /// What the computation read.
    pub deps: Arc<Vec<Dep>>,
    /// When the result last changed.
    pub changed_at: Revision,
    /// When the result was last known to be valid.
    pub verified_at: Revision,
    /// Whether the result is known to have been the same at every revision in between.
    pub settled: bool,
    /// Which insertion brought the record in.
    pub insert_id: u64,
}

/// What a record says.
#[verifier::ext_equal]
pub ghost struct RecordView<V> {
    /// The result.
    pub value: Arc<V>,
    /// What the computation read.
    pub deps: Seq<Dep>,
    /// When the result last changed.
    pub changed_at: Revision,
    /// When the result was last known to be valid.
    pub verified_at: Revision,
    /// Whether the result is known to have been the same at every revision in between.
    pub settled: bool,
    /// Which insertion brought the record in.
    pub insert_id: u64,
}

impl<V> View for SharedCacheRecord<V> {
    type V = RecordView<V>;

    open spec fn view(&self) -> RecordView<V> {
        RecordView {
            value: self.value,
            deps: self.deps@,
            changed_at: self.changed_at,
            verified_at: self.verified_at,
            settled: self.settled,
            insert_id: self.insert_id,
        }
    }
}

impl<V> Clone for SharedCacheRecord<V> {
    fn clone(&self) -> (r: Self)
        ensures
            r == *self,
    {
        SharedCacheRecord {
            value: share(&self.value),
            deps: share(&self.deps),
            changed_at: self.changed_at,
            verified_at: self.verified_at,
            settled: self.settled,
            insert_id: self.insert_id,
        }
    }
}

/// The byte string under which the record of a query is filed: the runtime identity as
/// eight little-endian bytes, followed by the bytes of the vertex.
pub open spec fn shared_name(runtime_id: RuntimeId, node: Node) -> Seq<u8> {
    vstd::bytes::spec_u64_to_le_bytes(runtime_id.0) + crate::key::node_bytes(node)
}

/// Records of different queries, or of different runtimes, are filed apart.
pub broadcast proof fn shared_name_injective(a: RuntimeId, m: Node, b: RuntimeId, n: Node)
    requires
        #[trigger] shared_name(a, m) == #[trigger] shared_name(b, n),
    ensures
        a == b,
        m == n,
{
    vstd::bytes::lemma_auto_spec_u64_to_from_le_bytes();
    let pa = vstd::bytes::spec_u64_to_le_bytes(a.0);
    let pb = vstd::bytes::spec_u64_to_le_bytes(b.0);
    assert(pa =~= shared_name(a, m).take(8));
    assert(pb =~= shared_name(b, n).take(8));
    assert(a.0 == vstd::bytes::spec_u64_from_le_bytes(pa));
    assert(b.0 == vstd::bytes::spec_u64_from_le_bytes(pb));
    assert(crate::key::node_bytes(m) =~= shared_name(a, m).skip(8));
    assert(crate::key::node_bytes(n) =~= shared_name(b, n).skip(8));
    crate::key::node_bytes_injective(m, n);
}

fn shared_file_name(runtime_id: RuntimeId, kind: QueryKindId, key: &Key) -> (r: Vec<u8>)
    ensures
        r@ == shared_name(runtime_id, (kind.0, key@)),
{
    let mut out: Vec<u8> = u64_to_le_bytes(runtime_id.0);
    let mut rest: Vec<u8> = file_name(kind, key);
    out.append(&mut rest);
    assert(out@ =~= shared_name(runtime_id, (kind.0, key@)));
    out
}

/// The number that `text` writes in decimal, with an optional plus sign before it.
pub open spec fn decimal_value(digits: Seq<u8>) -> Option<nat>
    decreases digits.len(),
{
    if digits.len() == 0 {
        Some(0)
    } else if 48 <= digits.last() <= 57 {
        match decimal_value(digits.drop_last()) {
            Some(high) => Some(high * 10 + (digits.last() - 48) as nat),
            None => None,
        }
    } else {
        None
    }
}

/// The entry limit that a piece of configuration text asks for: a decimal number that
/// fits a `usize`, with an optional plus sign before it.
pub open spec fn limit_in_text(text: Seq<u8>) -> Option<usize> {
    let digits = if text.len() > 0 && text[0] == 43 {
        text.drop_first()
    } else {
        text
    };
    match decimal_value(digits) {
        Some(n) if digits.len() > 0 && n <= usize::MAX => Some(n as usize),
        _ => None,
    }
}

proof fn decimal_value_monotone(digits: Seq<u8>, i: int)
    requires
        0 <= i <= digits.len(),
        decimal_value(digits) is Some,
    ensures
        decimal_value(digits.take(i)) is Some,
        decimal_value(digits.take(i))->0 <= decimal_value(digits)->0,
    decreases digits.len() - i,
{
    if i == digits.len() {
        assert(digits.take(i) =~= digits);
    } else {
        decimal_value_monotone(digits, i + 1);
        assert(digits.take(i + 1).drop_last() =~= digits.take(i));
    }
}

/// Read an entry limit from configuration text.
pub fn parse_limit(text: &str) -> (r: Option<usize>)
    ensures
        r == limit_in_text(text.spec_bytes()),
{
    let bytes: &[u8] = text.as_bytes();
    let start: usize = if bytes.len() > 0 && bytes[0] == 43 {
        1
    } else {
        0
    };
    let ghost digits = if start == 1 {
        bytes@.drop_first()
    } else {
        bytes@
    };
    if start == bytes.len() {
        return None;
    }
    let mut value: usize = 0;
    let mut i: usize = start;
    while i < bytes.len()
        invariant
            start <= i <= bytes@.len(),
            bytes@ == text.spec_bytes(),
            start == (if bytes@.len() > 0 && bytes@[0] == 43 {
                1int
            } else {
                0int
            }),
            digits == (if start == 1 {
                bytes@.drop_first()
            } else {
                bytes@
            }),
            digits.len() == bytes@.len() - start,
            decimal_value(digits.take(i - start)) == Some(value as nat),
        decreases bytes@.len() - i,
    {
        let b: u8 = bytes[i];
        let ghost longer = digits.take(i + 1 - start);
        assert(longer.drop_last() =~= digits.take(i - start));
        assert(longer.last() == b);
        if b < 48 || b > 57 {
            proof {
                if decimal_value(digits) is Some {
                    decimal_value_monotone(digits, i + 1 - start);
                }
            }
            return None;
        }
        let d: usize = (b - 48) as usize;
        match value.checked_mul(10) {
            Some(high) => match high.checked_add(d) {
                Some(sum) => {
                    value = sum;
                },
                None => {
                    proof {
                        if decimal_value(digits) is Some {
                            decimal_value_monotone(digits, i + 1 - start);
                        }
                    }
                    return None;
                },
            },
            None => {
                proof {
                    if decimal_value(digits) is Some {
                        decimal_value_monotone(digits, i + 1 - start);
                    }
                }
                return None;
            },
        }
        i = i + 1;
    }
    assert(digits.take(i - start) =~= digits);
    Some(value)
}

/// What the cache holds, by the bytes each record is filed under.
pub type Records<V> = Map<Seq<u8>, RecordView<V>>;

/// Drop the oldest insertions until at most `max` records are left. An insertion that a
/// later one for the same query has replaced is passed over.
pub open spec fn evict<V>(records: Records<V>, order: Seq<(Seq<u8>, u64)>, max: nat) -> (
    Records<V>,
    Seq<(Seq<u8>, u64)>,
)
    decreases order.len(),
{
    if records.dom().len() <= max || order.len() == 0 {
        (records, order)
    } else {
        let (name, id) = order[0];
        let left = if records.contains_key(name) && records[name].insert_id == id {
            records.remove(name)
        } else {
            records
        };
        evict(left, order.drop_first(), max)
    }
}

/// How many records there may be beside a new one under the limit `max`. A new record is always
/// stored, so a limit of zero is taken as one.
pub open spec fn room_for_others(max: usize) -> nat {
    if max == 0 {
        0
    } else {
        (max - 1) as nat
    }
}

/// The entry limit that the environment asks for, if it asks for one.
pub open spec fn env_limit(env: Option<&str>) -> Option<usize> {
    match env {
        Some(text) => limit_in_text(text.spec_bytes()),
        None => None,
    }
}

/// Whether the record of a query was looked up in a cache as it must be.
pub open spec fn found_in<V>(
    cache: CacheView<V>,
    runtime_id: RuntimeId,
    kind: QueryKindId,
    key: Key,
    r: Option<SharedCacheRecord<V>>,
) -> bool {
    let name = shared_name(runtime_id, (kind.0, key@));
    match r {
        Some(record) => cache.held.contains_key(name) && record@ == cache.held[name],
        None => !cache.held.contains_key(name),
    }
}

/// What can be seen of the cache.
#[verifier::ext_equal]
pub ghost struct CacheView<V> {
    /// What it holds.
    pub held: Records<V>,
    /// The insertions that have not been passed over yet, oldest first.
    pub insertions: Seq<(Seq<u8>, u64)>,
    /// The id that the next insertion gets.
    pub next_id: u64,
    /// The configured entry limit, and whether it overrides the environment.
    pub limit: (usize, bool),
}

impl<V> CacheView<V> {
    /// The limit in force: an override wins, then the environment, then the default.
    pub open spec fn limit_in_force(self, env: Option<usize>) -> usize {
        if self.limit.1 {
            self.limit.0
        } else {
            match env {
                Some(n) => n,
                None => self.limit.0,
            }
        }
    }

    /// The cache once `record` has been stored under `name`, in place of what was there. The
    /// oldest insertions make room for it.
    pub open spec fn put(self, name: Seq<u8>, record: RecordView<V>, max: usize) -> CacheView<V> {
        let left = evict(
            self.held.remove(name),
            self.insertions.push((name, self.next_id)),
            room_for_others(max),
        );
        CacheView {
            held: left.0.insert(name, RecordView { insert_id: self.next_id, ..record }),
            insertions: left.1,
            next_id: u64::wrapping_add(self.next_id, 1),
            limit: self.limit,
        }
    }

    /// Each record's own insertion is still in the queue, and the cache is finite.
    pub open spec fn sound(self) -> bool {
        &&& self.held.dom().finite()
        &&& SharedCache::<V>::queued(self.held, self.insertions)
    }
}

impl<V> View for SharedCache<V> {
    type V = CacheView<V>;

    open spec fn view(&self) -> CacheView<V> {
        CacheView {
            held: self.held(),
            insertions: self.insertions(),
            next_id: self.next_insert_id(),
            limit: self.limit(),
        }
    }
}

/// The bounded cache of completed results.
pub struct SharedCache<V> {
    records: SharedTable<SharedCacheRecord<V>>,
    order: VecDeque<(Vec<u8>, u64)>,
    max_entries: usize,
    overridden: bool,
    next_id: u64,
}

/// Entry limit where nothing else is configured.
pub const DEFAULT_MAX_ENTRIES: usize = 20_000;

impl<V> SharedCache<V> {
    /// What the cache holds.
    pub closed spec fn held(&self) -> Records<V> {
        self.records@.map_values(|r: SharedCacheRecord<V>| r@)
    }

    /// The insertions that have not been passed over yet, oldest first.
    pub closed spec fn insertions(&self) -> Seq<(Seq<u8>, u64)> {
        self.order@.map_values(|e: (Vec<u8>, u64)| (e.0@, e.1))
    }

    /// The id that the next insertion gets.
    pub closed spec fn next_insert_id(&self) -> u64 {
        self.next_id
    }

    /// The configured entry limit, and whether it overrides the environment.
    pub closed spec fn limit(&self) -> (usize, bool) {
        (self.max_entries, self.overridden)
    }

    /// Each record's own insertion is still in the queue.
    pub open spec fn queued(records: Records<V>, order: Seq<(Seq<u8>, u64)>) -> bool {
        forall|k: Seq<u8>| #[trigger]
            records.contains_key(k) ==> order.contains((k, records[k].insert_id))
    }

    /// The cache is sound.
    pub closed spec fn wf(&self) -> bool {
        &&& self.records.wf()
        &&& Self::queued(self.held(), self.insertions())
    }

    /// What can be seen of a sound cache is sound.
    pub proof fn wf_is_sound(&self)
        requires
            self.wf(),
        ensures
            self@.sound(),
    {
        self.records.order_lists_domain();
        assert(self.held().dom() =~= self.records@.dom());
    }

    /// An empty cache with the default limit.
    pub fn new() -> (r: Self)
        ensures
            r.wf(),
            r.held() == Map::<Seq<u8>, RecordView<V>>::empty(),
            r.insertions() == Seq::<(Seq<u8>, u64)>::empty(),
            r.limit() == (DEFAULT_MAX_ENTRIES, false),
            r.next_insert_id() == 1,
    {
        let r = SharedCache {
            records: SharedTable::new(),
            order: VecDeque::new(),
            max_entries: DEFAULT_MAX_ENTRIES,
            overridden: false,
            next_id: 1,
        };
        assert(r.insertions() =~= Seq::<(Seq<u8>, u64)>::empty());
        r
    }

    /// The limit in force, given the text of the environment variable that sets it.
    pub fn shared_cache_max_entries(&self, env: Option<&str>) -> (r: usize)
        ensures
            r == self@.limit_in_force(env_limit(env)),
    {
        if self.overridden {
            return self.max_entries;
        }
        match env {
            Some(text) => match parse_limit(text) {
                Some(n) => n,
                None => self.max_entries,
            },
            None => self.max_entries,
        }
    }

    /// Override the limit. It never goes below one.
    pub fn set_max_entries(&mut self, max_entries: usize)
        ensures
            final(self).limit() == (if max_entries == 0 {
                1usize
            } else {
                max_entries
            }, true),
            final(self).held() == old(self).held(),
            final(self).insertions() == old(self).insertions(),
            final(self).next_insert_id() == old(self).next_insert_id(),
            old(self).wf() ==> final(self).wf(),
    {
        self.max_entries = if max_entries == 0 {
            1
        } else {
            max_entries
        };
        self.overridden = true;
    }

    /// Forget every record.
    pub fn clear(&mut self)
        ensures
            final(self).wf(),
            final(self).held() == Map::<Seq<u8>, RecordView<V>>::empty(),
            final(self).insertions() == Seq::<(Seq<u8>, u64)>::empty(),
            final(self).limit() == old(self).limit(),
            final(self).next_insert_id() == old(self).next_insert_id(),
    {
        self.records.clear();
        self.order.clear();
        assert(self.insertions() =~= Seq::<(Seq<u8>, u64)>::empty());
    }

    /// The record of a query, if the cache holds one.
    pub fn shared_cache_get(&self, runtime_id: RuntimeId, kind: QueryKindId, key: &Key) -> (r: Option<
        SharedCacheRecord<V>,
    >)
        requires
            self.wf(),
        ensures
            match r {
                Some(record) => {
                    &&& self.held().contains_key(shared_name(runtime_id, (kind.0, key@)))
                    &&& record@ == self.held()[shared_name(runtime_id, (kind.0, key@))]
                },
                None => !self.held().contains_key(shared_name(runtime_id, (kind.0, key@))),
            },
            found_in(self@, runtime_id, kind, *key, r),
    {
        let name: Vec<u8> = shared_file_name(runtime_id, kind, key);
        match self.records.get(name.as_slice()) {
            Some(record) => Some(record.clone()),
            None => None,
        }
    }

    /// Store the record of a query, in place of an earlier one. The oldest insertions make room
    /// for it, so that the cache holds no more than the limit (and no less than one).
    pub fn shared_cache_put(
        &mut self,
        runtime_id: RuntimeId,
        kind: QueryKindId,
        key: &Key,
        record: SharedCacheRecord<V>,
        env: Option<&str>,
    )
        requires
            old(self).wf(),
        ensures
            final(self).wf(),
            final(self)@ == old(self)@.put(
                shared_name(runtime_id, (kind.0, key@)),
                record@,
                old(self)@.limit_in_force(env_limit(env)),
            ),
    {
        let name: Vec<u8> = shared_file_name(runtime_id, kind, key);
        let max: usize = self.shared_cache_max_entries(env);
        let room: usize = if max == 0 {
            0
        } else {
            max - 1
        };
        let insert_id: u64 = self.next_id;
        self.next_id = self.next_id.wrapping_add(1);
        let ghost before = *old(self);
        self.order.push_back((slice_to_vec(name.as_slice()), insert_id));
        assert(self.insertions() =~= before.insertions().push((name@, insert_id)));
        let ghost start = self.insertions();
        assert(start.drop_last() =~= before.insertions());
        self.records.remove(name.as_slice());
        assert(self.held() =~= before.held().remove(name@));
        while self.records.len() > room
            invariant
                self.records.wf(),
                evict(self.held(), self.insertions(), room as nat) == evict(
                    before.held().remove(name@),
                    start,
                    room as nat,
                ),
                self.insertions().len() > 0,
                self.insertions().last() == (name@, insert_id),
                Self::queued(self.held(), self.insertions().drop_last()),
                self.next_id == u64::wrapping_add(insert_id, 1),
                self.limit() == before.limit(),
            decreases self.insertions().len(),
        {
            let ghost held = self.held();
            let ghost order = self.insertions();
            proof {
                assert(held.dom() =~= self.records@.dom());
                assert(order.len() > 1) by {
                    if order.len() == 1 {
                        assert forall|k: Seq<u8>| !#[trigger] held.contains_key(k) by {
                            if held.contains_key(k) {
                                assert(order.drop_last().contains((k, held[k].insert_id)));
                            }
                        }
                        assert(held.dom() =~= Set::empty());
                    }
                }
                assert(self.order@.len() == order.len());
            }
            if let Some((old_name, old_id)) = self.order.pop_front() {
                assert(order[0] == (old_name@, old_id));
                assert(self.insertions() =~= order.drop_first());
                let should_remove: bool = match self.records.get(old_name.as_slice()) {
                    Some(record) => record.insert_id == old_id,
                    None => false,
                };
                if should_remove {
                    self.records.remove(old_name.as_slice());
                    assert(self.held() =~= held.remove(old_name@));
                }
                proof {
                    let rest = self.insertions().drop_last();
                    assert forall|k: Seq<u8>| #[trigger]
                        self.held().contains_key(k) implies rest.contains(
                        (k, self.held()[k].insert_id),
                    ) by {
                        let e = (k, held[k].insert_id);
                        assert(held.contains_key(k));
                        assert(order.drop_last().contains(e));
                        let i = choose|i: int|
                            0 <= i < order.drop_last().len() && order.drop_last()[i] == e;
                        assert(i != 0);
                        assert(rest[i - 1] == e);
                    }
                }
            }
        }
        let ghost kept = self.held();
        assert(kept.dom() =~= self.records@.dom());
        let stored = SharedCacheRecord {
            value: record.value,
            deps: record.deps,
            changed_at: record.changed_at,
            verified_at: record.verified_at,
            settled: record.settled,
            insert_id,
        };
        self.records.insert(name.as_slice(), stored);
        proof {
            assert(self.held() =~= kept.insert(name@, RecordView { insert_id, ..record@ }));
            assert forall|k: Seq<u8>| #[trigger]
                self.held().contains_key(k) implies self.insertions().contains(
                (k, self.held()[k].insert_id),
            ) by {
                let order = self.insertions();
                if k == name@ {
                    assert(order[order.len() - 1] == (name@, insert_id));
                } else {
                    let e = (k, kept[k].insert_id);
                    assert(kept.contains_key(k));
                    assert(order.drop_last().contains(e));
                    let i = choose|i: int|
                        0 <= i < order.drop_last().len() && order.drop_last()[i] == e;
                    assert(order[i] == e);
                }
            }
        }
    }
}

/// Eviction leaves no more than the limit, changes no record that it leaves, and drops a
/// record only on account of that record's own insertion: an insertion that a later one
/// has replaced never takes the fresh record with it.
pub proof fn evict_keeps_fresh_records<V>(
    records: Records<V>,
    order: Seq<(Seq<u8>, u64)>,
    max: nat,
)
    requires
        records.dom().finite(),
        SharedCache::<V>::queued(records, order),
    ensures
        evict(records, order, max).0.dom().finite(),
        evict(records, order, max).0.dom().len() <= max,
        evict(records, order, max).0.submap_of(records),
        evict(records, order, max).1.len() <= order.len(),
        evict(records, order, max).1 == order.skip(
            order.len() - evict(records, order, max).1.len(),
        ),
        forall|k: Seq<u8>| #[trigger]
            records.contains_key(k) && !evict(records, order, max).0.contains_key(k)
                ==> order.take(order.len() - evict(records, order, max).1.len()).contains(
                (k, records[k].insert_id),
            ),
    decreases order.len(),
{
    let out = evict(records, order, max);
    if records.dom().len() <= max {
        assert(out.1 =~= order.skip(0));
    } else if order.len() == 0 {
        assert forall|k: Seq<u8>| !#[trigger] records.contains_key(k) by {
            if records.contains_key(k) {
                assert(order.contains((k, records[k].insert_id)));
            }
        }
        assert(records.dom() =~= Set::empty());
    } else {
        let (name, id) = order[0];
        let left = if records.contains_key(name) && records[name].insert_id == id {
            records.remove(name)
        } else {
            records
        };
        let rest = order.drop_first();
        assert forall|k: Seq<u8>| #[trigger] left.contains_key(k) implies rest.contains(
            (k, left[k].insert_id),
        ) by {
            let e = (k, records[k].insert_id);
            assert(order.contains(e));
            let i = choose|i: int| 0 <= i < order.len() && order[i] == e;
            assert(i != 0);
            assert(rest[i - 1] == e);
        }
        evict_keeps_fresh_records(left, rest, max);
        assert(out == evict(left, rest, max));
        assert(out.1 =~= order.skip(order.len() - out.1.len()));
        let gone = order.take(order.len() - out.1.len());
        let gone_rest = rest.take(rest.len() - out.1.len());
        assert forall|k: Seq<u8>| #[trigger]
            records.contains_key(k) && !out.0.contains_key(k) implies gone.contains(
            (k, records[k].insert_id),
        ) by {
            let e = (k, records[k].insert_id);
            if left.contains_key(k) {
                assert(gone_rest.contains(e));
                let i = choose|i: int| 0 <= i < gone_rest.len() && gone_rest[i] == e;
                assert(gone[i + 1] == e);
            } else {
                assert(gone[0] == e);
            }
        }
    }
}

/// Eviction only drops records.
pub proof fn evict_only_drops<V>(records: Records<V>, order: Seq<(Seq<u8>, u64)>, max: nat)
    ensures
        evict(records, order, max).0.submap_of(records),
    decreases order.len(),
{
    if records.dom().len() > max && order.len() > 0 {
        let (name, id) = order[0];
        let left = if records.contains_key(name) && records[name].insert_id == id {
            records.remove(name)
        } else {
            records
        };
        evict_only_drops(left, order.drop_first(), max);
    }
}

/// The cache is bounded: after an insertion under the limit `max` it holds at most that many
/// records, or one where the limit is zero. The inserted record is among them, and every other
/// record that is left is as it was.
pub proof fn put_respects_limit<V>(
    before: CacheView<V>,
    name: Seq<u8>,
    record: RecordView<V>,
    max: usize,
)
    requires
        before.sound(),
    ensures
        before.put(name, record, max).sound(),
        max >= 1 ==> before.put(name, record, max).held.dom().len() <= max,
        max == 0 ==> before.put(name, record, max).held.dom().len() == 1,
        before.put(name, record, max).held.contains_key(name),
        before.put(name, record, max).held[name] == (RecordView {
            insert_id: before.next_id,
            ..record
        }),
        forall|k: Seq<u8>| #[trigger]
            before.put(name, record, max).held.contains_key(k) && k != name ==> {
                &&& before.held.contains_key(k)
                &&& before.put(name, record, max).held[k] == before.held[k]
            },
{
    let start = before.insertions.push((name, before.next_id));
    let after = before.put(name, record, max);
    let others = before.held.remove(name);
    let room = room_for_others(max);
    assert forall|k: Seq<u8>| #[trigger] others.contains_key(k) implies start.contains(
        (k, others[k].insert_id),
    ) by {
        let e = (k, others[k].insert_id);
        assert(before.held.contains_key(k));
        assert(before.insertions.contains(e));
        let i = choose|i: int| 0 <= i < before.insertions.len() && before.insertions[i] == e;
        assert(start[i] == e);
    }
    evict_keeps_fresh_records(others, start, room);
    evict_keeps_last(others, before.insertions, (name, before.next_id), room);
    let kept = evict(others, start, room).0;
    let rest = evict(others, start, room).1;
    assert(after.held.dom() =~= kept.dom().insert(name));
    assert forall|k: Seq<u8>| #[trigger] after.held.contains_key(k) && k != name implies {
        &&& before.held.contains_key(k)
        &&& after.held[k] == before.held[k]
    } by {
        assert(kept.dom().contains(k));
        assert(others.dom().contains(k) && others[k] == kept[k]);
    }
    assert forall|k: Seq<u8>| #[trigger] after.held.contains_key(k) implies rest.contains(
        (k, after.held[k].insert_id),
    ) by {
        if k == name {
            assert(rest[rest.len() - 1] == (name, before.next_id));
        } else {
            let e = (k, kept[k].insert_id);
            assert(kept.contains_key(k));
            assert(rest.drop_last().contains(e));
            let i = choose|i: int| 0 <= i < rest.drop_last().len() && rest.drop_last()[i] == e;
            assert(rest[i] == e);
        }
    }
}

/// Eviction never reaches an insertion that was queued behind those of all records.
proof fn evict_keeps_last<V>(
    records: Records<V>,
    order: Seq<(Seq<u8>, u64)>,
    last: (Seq<u8>, u64),
    max: nat,
)
    requires
        records.dom().finite(),
        SharedCache::<V>::queued(records, order),
    ensures
        evict(records, order.push(last), max).1.len() > 0,
        evict(records, order.push(last), max).1.last() == last,
        SharedCache::<V>::queued(
            evict(records, order.push(last), max).0,
            evict(records, order.push(last), max).1.drop_last(),
        ),
    decreases order.len(),
{
    let all = order.push(last);
    assert(all.drop_last() =~= order);
    if records.dom().len() > max {
        if order.len() == 0 {
            assert forall|k: Seq<u8>| !#[trigger] records.contains_key(k) by {
                if records.contains_key(k) {
                    assert(order.contains((k, records[k].insert_id)));
                }
            }
            assert(records.dom() =~= Set::empty());
        } else {
            let (name, id) = order[0];
            let left = if records.contains_key(name) && records[name].insert_id == id {
                records.remove(name)
            } else {
                records
            };
            let rest = order.drop_first();
            assert forall|k: Seq<u8>| #[trigger] left.contains_key(k) implies rest.contains(
                (k, left[k].insert_id),
            ) by {
                let e = (k, records[k].insert_id);
                assert(order.contains(e));
                let i = choose|i: int| 0 <= i < order.len() && order[i] == e;
                assert(i != 0);
                assert(rest[i - 1] == e);
            }
            assert(all[0] == (name, id));
            assert(all.drop_first() =~= rest.push(last));
            evict_keeps_last(left, rest, last, max);
        }
    }
}

/// Key identifying an in-flight computation.
///
/// Two computations are the same if they agree in the runtime identity, the revision, the
/// query kind and the exact key bytes.
pub struct InFlightKey {
    /// The database family.
    pub runtime_id: RuntimeId,
    /// The revision at which the computation runs.
    pub revision: Revision,
    /// The query kind.
    pub kind: QueryKindId,
    /// The query key.
    pub key: Key,
}

/// The byte string under which a computation is filed: its revision as eight little-endian
/// bytes, followed by the name of the query's record.
pub open spec fn flight_name(runtime_id: RuntimeId, revision: Revision, node: Node) -> Seq<u8> {
    vstd::bytes::spec_u64_to_le_bytes(revision.0) + shared_name(runtime_id, node)
}

/// Computations that differ in runtime, revision, kind or key are filed apart.
pub broadcast proof fn flight_name_injective(
    a: RuntimeId,
    r: Revision,
    m: Node,
    b: RuntimeId,
    s: Revision,
    n: Node,
)
    requires
        #[trigger] flight_name(a, r, m) == #[trigger] flight_name(b, s, n),
    ensures
        a == b,
        r == s,
        m == n,
{
    vstd::bytes::lemma_auto_spec_u64_to_from_le_bytes();
    let pa = vstd::bytes::spec_u64_to_le_bytes(r.0);
    let pb = vstd::bytes::spec_u64_to_le_bytes(s.0);
    assert(pa =~= flight_name(a, r, m).take(8));
    assert(pb =~= flight_name(b, s, n).take(8));
    assert(r.0 == vstd::bytes::spec_u64_from_le_bytes(pa));
    assert(s.0 == vstd::bytes::spec_u64_from_le_bytes(pb));
    assert(shared_name(a, m) =~= flight_name(a, r, m).skip(8));
    assert(shared_name(b, n) =~= flight_name(b, s, n).skip(8));
    shared_name_injective(a, m, b, n);
}

impl InFlightKey {
    /// The byte string under which the computation is filed.
    pub open spec fn name(&self) -> Seq<u8> {
        flight_name(self.runtime_id, self.revision, (self.kind.0, self.key@))
    }

    fn file_name(&self) -> (r: Vec<u8>)
        ensures
            r@ == self.name(),
    {
        let mut out: Vec<u8> = u64_to_le_bytes(self.revision.0);
        let mut rest: Vec<u8> = shared_file_name(self.runtime_id, self.kind, &self.key);
        out.append(&mut rest);
        assert(out@ =~= self.name());
        out
    }
}

impl Clone for InFlightKey {
    fn clone(&self) -> (r: Self)
        ensures
            r == *self,
    {
        InFlightKey {
            runtime_id: self.runtime_id,
            revision: self.revision,
            kind: self.kind,
            key: self.key.clone(),
        }
    }
}

/// State of an in-flight computation.
pub enum InFlightState<V> {
    /// Computation is still running.
    Running,
    /// Computation completed successfully with a value and its dependencies.
    Done {
        /// The result.
        value: Arc<V>,
        /// What the computation read.
        deps: Arc<Vec<Dep>>,
        /// When the result last changed.
        changed_at: Revision,
    },
    /// Computation failed with an error.
    Failed(Arc<PicanteError>),
    /// Computation was cancelled (its leader went away, or the leader's database moved on).
    Cancelled,
}

/// What followers see of a computation.
#[verifier::ext_equal]
pub ghost enum FlightView<V> {
    /// It is still running.
    Running,
    /// It came to a result.
    Done { value: Arc<V>, deps: Seq<Dep>, changed_at: Revision },
    /// It failed.
    Failed(Arc<PicanteError>),
    /// Its leader went away, or the leader's database moved on.
    Cancelled,
}

impl<V> View for InFlightState<V> {
    type V = FlightView<V>;

    open spec fn view(&self) -> FlightView<V> {
        match *self {
            InFlightState::Running => FlightView::Running,
            InFlightState::Done { value, deps, changed_at } => FlightView::Done {
                value,
                deps: deps@,
                changed_at,
            },
            InFlightState::Failed(error) => FlightView::Failed(error),
            InFlightState::Cancelled => FlightView::Cancelled,
        }
    }
}

impl<V> Clone for InFlightState<V> {
    fn clone(&self) -> (r: Self)
        ensures
            r == *self,
    {
        match self {
            InFlightState::Running => InFlightState::Running,
            InFlightState::Done { value, deps, changed_at } => InFlightState::Done {
                value: share(value),
                deps: share(deps),
                changed_at: *changed_at,
            },
            InFlightState::Failed(error) => InFlightState::Failed(share(error)),
            InFlightState::Cancelled => InFlightState::Cancelled,
        }
    }
}

/// An entry of the registry: what its followers look at.
pub struct InFlightEntry<V> {
    state: InFlightState<V>,
}

impl<V> InFlightEntry<V> {
    /// The state that followers see.
    pub closed spec fn seen(&self) -> InFlightState<V> {
        self.state
    }

    /// The entry of a computation that has just started.
    pub fn new() -> (r: Self)
        ensures
            r.seen() == InFlightState::<V>::Running,
    {
        InFlightEntry { state: InFlightState::Running }
    }

    /// The current state.
    pub fn state(&self) -> (r: InFlightState<V>)
        ensures
            r == self.seen(),
    {
        self.state.clone()
    }

    /// The computation came to a result.
    pub fn complete(&mut self, value: Arc<V>, deps: Arc<Vec<Dep>>, changed_at: Revision)
        ensures
            final(self).seen() == (InFlightState::Done { value, deps, changed_at }),
    {
        self.state = InFlightState::Done { value, deps, changed_at };
    }

    /// The computation failed.
    pub fn fail(&mut self, error: Arc<PicanteError>)
        ensures
            final(self).seen() == InFlightState::<V>::Failed(error),
    {
        self.state = InFlightState::Failed(error);
    }

    /// The leader went away before it came to a result.
    pub fn cancel(&mut self)
        ensures
            final(self).seen() == InFlightState::<V>::Cancelled,
    {
        self.state = InFlightState::Cancelled;
    }
}

/// Result of trying to become the leader for an in-flight computation.
pub enum TryLeadResult<E> {
    /// The caller became the leader. The guard must be used to finish the computation.
    Leader(InFlightGuard),
    /// Someone else is already computing; wait on the entry.
    Follower(Arc<E>),
}

/// The leader's right to finish a computation. It is used up by doing so.
pub struct InFlightGuard {
    key: InFlightKey,
}

impl InFlightGuard {
    /// The computation that the guard stands for.
    pub closed spec fn of(&self) -> InFlightKey {
        self.key
    }
}

/// The registry of running computations. Each has an entry of type `E`, on which
/// followers wait.
pub struct InFlightRegistry<E> {
    entries: SharedTable<Arc<E>>,
}

impl<E> InFlightRegistry<E> {
    /// The entries of the running computations, by the bytes they are filed under.
    pub closed spec fn running(&self) -> Map<Seq<u8>, Arc<E>> {
        self.entries@
    }

    /// The registry is sound.
    pub closed spec fn wf(&self) -> bool {
        self.entries.wf()
    }

    /// A registry without running computations.
    pub fn new() -> (r: Self)
        ensures
            r.wf(),
            r.running() == Map::<Seq<u8>, Arc<E>>::empty(),
    {
        InFlightRegistry { entries: SharedTable::new() }
    }

    /// What `try_lead` does: the first to ask leads, and anyone else follows.
    pub open spec fn led(
        before: &Self,
        after: &Self,
        key: InFlightKey,
        fresh: Arc<E>,
        r: TryLeadResult<E>,
    ) -> bool {
        match r {
            TryLeadResult::Leader(guard) => {
                &&& !before.running().contains_key(key.name())
                &&& guard.of() == key
                &&& after.running() == before.running().insert(key.name(), fresh)
            },
            TryLeadResult::Follower(entry) => {
                &&& before.running().contains_key(key.name())
                &&& entry == before.running()[key.name()]
                &&& after.running() == before.running()
            },
        }
    }

    /// While a leader runs, everyone who asks for the same computation follows it and gets
    /// its entry; someone who asks for another computation is not affected by it.
    pub proof fn one_leader_at_a_time(
        before: &Self,
        led: &Self,
        after: &Self,
        key: InFlightKey,
        other: InFlightKey,
        entry: Arc<E>,
        fresh: Arc<E>,
        guard: InFlightGuard,
        r: TryLeadResult<E>,
    )
        requires
            Self::led(before, led, key, entry, TryLeadResult::Leader(guard)),
            Self::led(led, after, other, fresh, r),
        ensures
            other.name() == key.name() ==> r == TryLeadResult::Follower(entry),
            other.name() != key.name() ==> (r is Leader <==> !before.running().contains_key(
                other.name(),
            )),
    {
    }

    /// Once a computation is finished, the next to ask for it leads it.
    pub proof fn finished_computation_can_be_led(
        before: &Self,
        after: &Self,
        key: InFlightKey,
        fresh: Arc<E>,
        r: TryLeadResult<E>,
    )
        requires
            !before.running().contains_key(key.name()),
            Self::led(before, after, key, fresh, r),
        ensures
            r is Leader,
    {
    }

    /// Become the leader for a computation, with `fresh` as its entry, or get the entry of
    /// whoever already leads it.
    pub fn try_lead(&mut self, key: &InFlightKey, fresh: &Arc<E>) -> (r: TryLeadResult<E>)
        requires
            old(self).wf(),
        ensures
            final(self).wf(),
            Self::led(old(self), final(self), *key, *fresh, r),
    {
        let name: Vec<u8> = key.file_name();
        if let Some(entry) = self.entries.get(name.as_slice()) {
            return TryLeadResult::Follower(share(entry));
        }
        self.entries.insert(name.as_slice(), share(fresh));
        TryLeadResult::Leader(InFlightGuard { key: key.clone() })
    }

    /// End a computation: whoever asks for it next becomes a new leader.
    pub fn finish(&mut self, guard: InFlightGuard)
        requires
            old(self).wf(),
        ensures
            final(self).wf(),
            final(self).running() == old(self).running().remove(guard.of().name()),
    {
        let name: Vec<u8> = guard.key.file_name();
        self.entries.remove(name.as_slice());
    }
}

} // verus!
