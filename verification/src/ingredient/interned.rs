//! Interned values.
use crate::error::{PicanteError, PicanteResult};
#[allow(unused_imports)]
use crate::frame::FrameView;
use crate::frame::{has_active_frame, record_dep, FrameStack};
use crate::key::{Dep, Key, QueryKindId};
use crate::order::insert_ascending;
use crate::revision::Revision;
use crate::share::share;
use crate::table::SharedTable;
use crate::text::push_decimal;
use std::sync::Arc;
use vstd::bytes::u32_to_le_bytes;
use vstd::prelude::*;

verus! {

/// An identifier returned from [`InternedIngredient::intern`].
#[derive(Debug, Copy, Clone, Eq, PartialEq, Hash, Structural)]
pub struct InternId(pub u32);

struct Interned<K> {
    id: InternId,
    key: Key,
    value: Arc<K>,
}

/// An ingredient that interns values and returns stable ids.
///
/// Interned values are immutable: interning takes no part in the revisions of a database.
pub struct InternedIngredient<K> {
    kind: QueryKindId,
    kind_name: &'static str,
    next_id: u32,
    by_value: SharedTable<InternId>,
    by_id: SharedTable<Interned<K>>,
}

/// What can be seen of an interning table.
#[verifier::ext_equal]
pub ghost struct InternView<K> {
    /// The id of each interned value, by the value's encoding.
    pub ids: Map<Seq<u8>, InternId>,
    /// The interned values by id, each with its encoding.
    pub values: Map<u32, (Seq<u8>, Arc<K>)>,
    /// The id that the next new value gets.
    pub next: u32,
}

spec fn id_name(id: u32) -> Seq<u8> {
    vstd::bytes::spec_u32_to_le_bytes(id)
}

broadcast proof fn id_name_injective(a: u32, b: u32)
    requires
        #[trigger] id_name(a) == #[trigger] id_name(b),
    ensures
        a == b,
{
    vstd::bytes::lemma_auto_spec_u32_to_from_le_bytes();
    let pa = vstd::bytes::spec_u32_to_le_bytes(a);
    let pb = vstd::bytes::spec_u32_to_le_bytes(b);
    assert(pa.len() == 4 && pb.len() == 4);
    assert(a == vstd::bytes::spec_u32_from_le_bytes(pa));
    assert(b == vstd::bytes::spec_u32_from_le_bytes(pb));
}

impl<K> InternView<K> {
    /// The two directions of the table agree, and no id has been used that is still to be given.
    pub open spec fn paired(self) -> bool {
        &&& forall|k: Seq<u8>| #[trigger]
            self.ids.contains_key(k) ==> {
                &&& self.values.contains_key(self.ids[k].0)
                &&& self.values[self.ids[k].0].0 == k
            }
        &&& forall|id: u32| #[trigger]
            self.values.contains_key(id) ==> {
                &&& self.ids.contains_key(self.values[id].0)
                &&& self.ids[self.values[id].0] == InternId(id)
                &&& id < self.next
            }
    }

    /// The table once `value` has been interned under the encoding `key`.
    pub open spec fn interned(self, key: Seq<u8>, value: Arc<K>) -> InternView<K> {
        if self.ids.contains_key(key) {
            self
        } else {
            InternView {
                ids: self.ids.insert(key, InternId(self.next)),
                values: self.values.insert(self.next, (key, value)),
                next: u32::wrapping_add(self.next, 1),
            }
        }
    }

    /// The id of `value` once it has been interned under the encoding `key`.
    pub open spec fn id_of(self, key: Seq<u8>) -> InternId {
        if self.ids.contains_key(key) {
            self.ids[key]
        } else {
            InternId(self.next)
        }
    }

    /// The table with one record filed, whatever was there before.
    pub open spec fn filed(self, id: InternId, key: Seq<u8>, value: Arc<K>) -> InternView<K> {
        InternView {
            ids: self.ids.insert(key, id),
            values: self.values.insert(id.0, (key, value)),
            next: self.next,
        }
    }

    /// The table once a value from the log was filed. Ids that are given out go on behind its id.
    pub open spec fn replayed(self, record: Option<(InternId, Seq<u8>, Arc<K>)>) -> InternView<K> {
        match record {
            None => self,
            Some((id, key, value)) => InternView {
                next: if id.0 >= self.next {
                    u32::saturating_add(id.0, 1)
                } else {
                    self.next
                },
                ..self.filed(id, key, value)
            },
        }
    }
}

/// A table without values.
pub open spec fn no_values<K>() -> InternView<K> {
    InternView { ids: Map::empty(), values: Map::empty(), next: 0 }
}

/// Interning keeps the table consistent and append-only, gives equal values the same id and
/// different values different ids, and the id leads back to the value.
pub proof fn interning_is_stable<K>(
    table: InternView<K>,
    key: Seq<u8>,
    value: Arc<K>,
    other: Seq<u8>,
    other_value: Arc<K>,
)
    requires
        table.paired(),
        table.next < u32::MAX,
    ensures
        ({
            let once = table.interned(key, value);
            let twice = once.interned(other, other_value);
            &&& once.paired()
            &&& forall|id: u32| #[trigger]
                table.values.contains_key(id) ==> once.values.contains_key(id) && once.values[id]
                    == table.values[id]
            &&& once.values.contains_key(table.id_of(key).0)
            &&& once.values[table.id_of(key).0].0 == key
            &&& !table.ids.contains_key(key) ==> once.values[table.id_of(key).0].1 == value
            &&& once.id_of(key) == table.id_of(key)
            &&& once.interned(key, other_value) == once
            &&& other != key ==> once.id_of(other) != table.id_of(key)
        }),
{
    let once = table.interned(key, value);
    assert forall|k: Seq<u8>| #[trigger] once.ids.contains_key(k) implies {
        &&& once.values.contains_key(once.ids[k].0)
        &&& once.values[once.ids[k].0].0 == k
    } by {
        if table.ids.contains_key(k) {
            assert(table.values.contains_key(table.ids[k].0));
        }
    }
    if other != key && !table.ids.contains_key(key) && table.ids.contains_key(other) {
        assert(table.values.contains_key(table.ids[other].0));
    }
    if other != key && table.ids.contains_key(key) {
        assert(table.values.contains_key(table.ids[key].0));
        if table.ids.contains_key(other) {
            assert(table.values.contains_key(table.ids[other].0));
        }
    }
}

impl<K> InternedIngredient<K> {
    /// The kind of the ingredient.
    pub closed spec fn kind_id(&self) -> QueryKindId {
        self.kind
    }

    /// The debug name of the ingredient.
    pub closed spec fn name(&self) -> Seq<char> {
        self.kind_name@
    }

    /// What can be seen of the table.
    pub closed spec fn table(&self) -> InternView<K> {
        InternView {
            ids: self.by_value@,
            values: Map::new(
                |id: u32| self.by_id@.contains_key(id_name(id)),
                |id: u32| (self.by_id@[id_name(id)].key@, self.by_id@[id_name(id)].value),
            ),
            next: self.next_id,
        }
    }

    /// The ingredient is sound.
    pub closed spec fn wf(&self) -> bool {
        &&& self.by_value.wf()
        &&& self.by_id.wf()
        &&& forall|k: Seq<u8>| #[trigger]
            self.by_id@.contains_key(k) ==> k == id_name(self.by_id@[k].id.0)
    }

    /// Whether the ingredients differ in nothing but their tables.
    pub open spec fn same_but_table(&self, other: &Self) -> bool {
        self.kind_id() == other.kind_id() && self.name() == other.name()
    }

    /// Create an empty interned ingredient.
    pub fn new(kind: QueryKindId, kind_name: &'static str) -> (r: Self)
        ensures
            r.wf(),
            r.kind_id() == kind,
            r.name() == kind_name@,
            r.table() == no_values::<K>(),
    {
        let r = InternedIngredient {
            kind,
            kind_name,
            next_id: 0,
            by_value: SharedTable::new(),
            by_id: SharedTable::new(),
        };
        assert(r.table() =~= no_values::<K>());
        r
    }

    /// The stable kind id.
    pub fn kind(&self) -> (r: QueryKindId)
        ensures
            r == self.kind_id(),
    {
        self.kind
    }

    /// Debug name for this ingredient.
    pub fn kind_name(&self) -> (r: &'static str)
        ensures
            r@ == self.name(),
    {
        self.kind_name
    }

    fn file(&mut self, id: InternId, key: &Key, value: Arc<K>) -> (r: Option<InternId>)
        requires
            old(self).wf(),
        ensures
            final(self).wf(),
            final(self).same_but_table(old(self)),
            final(self).table() == old(self).table().filed(id, key@, value),
            r == (if old(self).table().ids.contains_key(key@) {
                Some(old(self).table().ids[key@])
            } else {
                None
            }),
    {
        broadcast use id_name_injective;

        let name: Vec<u8> = u32_to_le_bytes(id.0);
        assert(name@ == id_name(id.0));
        self.by_id.insert(name.as_slice(), Interned { id, key: key.clone(), value });
        let r = self.by_value.insert(key.bytes(), id);
        assert(self.table() =~= old(self).table().filed(id, key@, value));
        r
    }

    /// Intern `value`, whose encoding is `key`, and return its stable id.
    pub fn intern(&mut self, key: PicanteResult<Key>, value: K) -> (r: PicanteResult<InternId>)
        requires
            old(self).wf(),
        ensures
            final(self).wf(),
            final(self).same_but_table(old(self)),
            match key {
                Err(error) => {
                    &&& r == Err::<InternId, Arc<PicanteError>>(error)
                    &&& final(self).table() == old(self).table()
                },
                Ok(key) => {
                    &&& r == Ok::<InternId, Arc<PicanteError>>(old(self).table().id_of(key@))
                    &&& final(self).table() == old(self).table().interned(key@, Arc::new(value))
                },
            },
    {
        let key = match key {
            Ok(key) => key,
            Err(error) => {
                return Err(error);
            },
        };
        if let Some(id) = self.by_value.get(key.bytes()) {
            return Ok(*id);
        }
        let id = InternId(self.next_id);
        self.next_id = self.next_id.wrapping_add(1);
        self.file(id, &key, Arc::new(value));
        assert(self.table() =~= old(self).table().interned(key@, Arc::new(value)));
        Ok(id)
    }

    /// Look up an interned value by id.
    ///
    /// If there is an active query frame, records a dependency edge.
    pub fn get(&self, stack: &mut FrameStack, id: InternId) -> (r: PicanteResult<Arc<K>>)
        requires
            self.wf(),
        ensures
            r == (if self.table().values.contains_key(id.0) {
                Ok(self.table().values[id.0].1)
            } else {
                Err(
                    Arc::new(
                        PicanteError::MissingInternedValue { kind: self.kind_id(), id: id.0 },
                    ),
                )
            }),
            old(stack)@.len() == 0 ==> final(stack)@ == old(stack)@,
            old(stack)@.len() > 0 ==> exists|dep: Dep|
                {
                    &&& dep.kind == self.kind_id()
                    &&& dep.key@ == crate::postcard::varint(id.0 as nat)
                    &&& final(stack)@ == #[trigger] crate::frame::with_dep(old(stack)@, dep)
                },            value_was_read(self.table(), self.kind_id(), old(stack)@, final(stack)@, id, r),
    {
        if has_active_frame(stack) {
            let key = match Key::for_u32(id.0) {
                Ok(key) => key,
                Err(error) => {
                    return Err(error);
                },
            };
            let dep = Dep { kind: self.kind, key };
            let ghost expected = crate::frame::with_dep(stack@, dep);
            record_dep(stack, dep);
            assert(stack@ == expected);
        }
        let name: Vec<u8> = u32_to_le_bytes(id.0);
        assert(name@ == id_name(id.0));
        match self.by_id.get(name.as_slice()) {
            Some(interned) => Ok(share(&interned.value)),
            None => Err(
                Arc::new(PicanteError::MissingInternedValue { kind: self.kind, id: id.0 }),
            ),
        }
    }

    /// Touch an interned value as a dependency: it has never changed, but it must be there.
    pub fn touch(&self, key: &Key) -> (r: PicanteResult<Revision>)
        requires
            self.wf(),
        ensures
            match crate::postcard::u32_from_postcard(key@) {
                Err(message) => r matches Err(error) && crate::error::is_decode_error(
                    *error,
                    "key"@,
                    message,
                ),
                Ok(id) => r == (if self.table().values.contains_key(id) {
                    Ok(Revision(0))
                } else {
                    Err(
                        Arc::new(PicanteError::MissingInternedValue { kind: self.kind_id(), id }),
                    )
                }),
            },
    {
        let id = match key.as_u32() {
            Ok(id) => id,
            Err(error) => {
                return Err(error);
            },
        };
        let name: Vec<u8> = u32_to_le_bytes(id);
        assert(name@ == id_name(id));
        if self.by_id.contains(name.as_slice()) {
            Ok(Revision(0))
        } else {
            Err(Arc::new(PicanteError::MissingInternedValue { kind: self.kind, id }))
        }
    }

    /// Drop every value and start again with id 0.
    pub fn clear(&mut self)
        ensures
            final(self).wf(),
            final(self).same_but_table(old(self)),
            final(self).table() == no_values::<K>(),
    {
        self.by_value.clear();
        self.by_id.clear();
        self.next_id = 0;
        assert(self.table() =~= no_values::<K>());
    }
}

/// Whether an interned value was read as it must be, and recorded as a dependency of the query that
/// runs.
pub open spec fn value_was_read<K>(
    table: InternView<K>,
    kind: QueryKindId,
    stack: Seq<FrameView>,
    stack_after: Seq<FrameView>,
    id: InternId,
    r: PicanteResult<Arc<K>>,
) -> bool {
    &&& r == (if table.values.contains_key(id.0) {
        Ok(table.values[id.0].1)
    } else {
        Err(Arc::new(PicanteError::MissingInternedValue { kind, id: id.0 }))
    })
    &&& stack.len() == 0 ==> stack_after == stack
    &&& stack.len() > 0 ==> exists|dep: Dep|
        {
            &&& dep.kind == kind
            &&& dep.key@ == crate::postcard::varint(id.0 as nat)
            &&& stack_after == #[trigger] crate::frame::with_dep(stack, dep)
        }
}

/// A persisted interned value, as it comes out of a decoder: its id, its encoding (or why it
/// could not be encoded), and the value.
pub struct LoadedValue<K> {
    /// The id.
    pub id: InternId,
    /// The encoding of the value.
    pub key: PicanteResult<Key>,
    /// The value.
    pub value: Arc<K>,
}

/// Whether `ids` lists the ids of the table's values in ascending order.
pub open spec fn lists_ids<K>(table: InternView<K>, ids: Seq<u32>) -> bool {
    &&& forall|i: int, j: int| 0 <= i < j < ids.len() ==> ids[i] < ids[j]
    &&& forall|id: u32| #[trigger] ids.contains(id) <==> table.values.contains_key(id)
}

/// Whether `encode` may turn the value under `id` into `out`.
pub open spec fn value_encodes<K, F: Fn(InternId, &Arc<K>) -> PicanteResult<Vec<u8>>>(
    encode: F,
    id: u32,
    value: Arc<K>,
    out: PicanteResult<Vec<u8>>,
) -> bool {
    exists|v: &Arc<K>| *v == value && #[trigger] encode.ensures((InternId(id), v), out)
}

/// Whether `encode` may succeed on the value under `id`.
pub open spec fn value_may_encode<K, F: Fn(InternId, &Arc<K>) -> PicanteResult<Vec<u8>>>(
    encode: F,
    id: u32,
    value: Arc<K>,
) -> bool {
    exists|out: Vec<u8>| #[trigger] value_encodes(encode, id, value, Ok(out))
}

/// Whether `encode` may fail with `error` on the value under the id at `n`, after it may have
/// encoded those before.
pub open spec fn stops_at<K, F: Fn(InternId, &Arc<K>) -> PicanteResult<Vec<u8>>>(
    encode: F,
    ids: Seq<u32>,
    table: InternView<K>,
    n: int,
    error: Arc<PicanteError>,
) -> bool {
    &&& 0 <= n < ids.len()
    &&& value_encodes(encode, ids[n], table.values[ids[n]].1, Err(error))
    &&& forall|j: int|
        0 <= j < n ==> value_may_encode(encode, #[trigger] ids[j], table.values[ids[j]].1)
}

/// The table with the records of `loaded` filed one after the other.
pub open spec fn filed_all<K>(
    table: InternView<K>,
    loaded: Seq<(InternId, Seq<u8>, Arc<K>)>,
) -> InternView<K>
    decreases loaded.len(),
{
    if loaded.len() == 0 {
        table
    } else {
        let last = loaded.last();
        filed_all(table, loaded.drop_last()).filed(last.0, last.1, last.2)
    }
}

/// The largest id among the loaded records, or 0.
pub open spec fn max_id<K>(loaded: Seq<(InternId, Seq<u8>, Arc<K>)>) -> u32
    decreases loaded.len(),
{
    if loaded.len() == 0 {
        0
    } else {
        let earlier = max_id(loaded.drop_last());
        if loaded.last().0.0 > earlier {
            loaded.last().0.0
        } else {
            earlier
        }
    }
}

/// Whether no two of the loaded records share their id or their encoding.
pub open spec fn all_distinct<K>(loaded: Seq<(InternId, Seq<u8>, Arc<K>)>) -> bool {
    forall|i: int, j: int|
        0 <= i < j < loaded.len() ==> (#[trigger] loaded[i]).0 != (#[trigger] loaded[j]).0
            && loaded[i].1 != loaded[j].1
}

/// Text of the error for an id that occurs twice.
pub open spec fn duplicate_id_text(id: InternId, name: Seq<char>) -> Seq<char> {
    "duplicate interned id "@ + crate::text::decimal(id.0 as nat) + " in `"@ + name + "`"@
}

/// Text of the error for a value that occurs twice.
pub open spec fn duplicate_value_text(
    name: Seq<char>,
    existing: InternId,
    id: InternId,
) -> Seq<char> {
    "duplicate interned value for `"@ + name + "` (ids "@ + crate::text::decimal(
        existing.0 as nat,
    ) + " and "@ + crate::text::decimal(id.0 as nat) + ")"@
}

/// Whether loading `next` after the distinct records `loaded` fails with `error`, leaving `table`.
pub open spec fn load_refused<K>(
    loaded: Seq<(InternId, Seq<u8>, Arc<K>)>,
    next: PicanteResult<LoadedValue<K>>,
    name: Seq<char>,
    error: Arc<PicanteError>,
    table: InternView<K>,
) -> bool {
    let filed = filed_all(no_values::<K>(), loaded);
    match next {
        Err(decode_error) => error == decode_error && table == filed,
        Ok(record) => if filed.values.contains_key(record.id.0) {
            crate::error::is_cache_error(*error, duplicate_id_text(record.id, name)) && table == filed
        } else {
            match record.key {
                Err(key_error) => error == key_error && table == filed,
                Ok(key) => {
                    &&& filed.ids.contains_key(key@)
                    &&& crate::error::is_cache_error(
                        *error,
                        duplicate_value_text(name, filed.ids[key@], record.id),
                    )
                    &&& table == (InternView { ids: filed.ids.insert(key@, record.id), ..filed })
                },
            }
        },
    }
}

/// Whether `loaded` is what the first records decode to.
pub open spec fn decoded_prefix<K, F: Fn(&[u8]) -> PicanteResult<LoadedValue<K>>>(
    decode: F,
    records: Seq<Vec<u8>>,
    loaded: Seq<(InternId, Seq<u8>, Arc<K>)>,
) -> bool {
    &&& loaded.len() <= records.len()
    &&& forall|i: int|
        0 <= i < loaded.len() ==> decoded_as(decode, (#[trigger] records[i])@, loaded[i])
}

/// Whether loading values came out as it must: all of them were decoded and filed, with different ids
/// and different keys, and ids go on behind the largest; or one could not be decoded, or repeats the
/// id or the key of another.
pub open spec fn values_loaded<K, F: Fn(&[u8]) -> PicanteResult<LoadedValue<K>>>(
    table: InternView<K>,
    name: Seq<char>,
    records: Seq<Vec<u8>>,
    decode: F,
    r: PicanteResult<()>,
) -> bool {
    exists|loaded: Seq<(InternId, Seq<u8>, Arc<K>)>|
        {
            &&& #[trigger] decoded_prefix(decode, records, loaded)
            &&& all_distinct(loaded)
            &&& match r {
                Ok(_) => {
                    &&& loaded.len() == records.len()
                    &&& table == (InternView {
                        next: u32::saturating_add(max_id(loaded), 1),
                        ..filed_all(no_values::<K>(), loaded)
                    })
                },
                Err(error) => {
                    &&& loaded.len() < records.len()
                    &&& exists|next: PicanteResult<LoadedValue<K>>|
                        {
                            &&& crate::ingredient::derived::decodes(
                                decode,
                                records[loaded.len() as int]@,
                                next,
                            )
                            &&& #[trigger] load_refused(loaded, next, name, error, table)
                        }
                },
            }
        }
}

/// Whether a record may decode to `value`.
pub open spec fn decoded_as<K, F: Fn(&[u8]) -> PicanteResult<LoadedValue<K>>>(
    decode: F,
    bytes: Seq<u8>,
    value: (InternId, Seq<u8>, Arc<K>),
) -> bool {
    exists|key: Key|
        key@ == value.1 && #[trigger] crate::ingredient::derived::decodes(
            decode,
            bytes,
            Ok(LoadedValue { id: value.0, key: Ok(key), value: value.2 }),
        )
}

proof fn filed_all_values<K>(loaded: Seq<(InternId, Seq<u8>, Arc<K>)>)
    ensures
        forall|id: u32| #[trigger]
            filed_all(no_values::<K>(), loaded).values.contains_key(id) <==> exists|i: int|
                0 <= i < loaded.len() && (#[trigger] loaded[i]).0.0 == id,
        forall|k: Seq<u8>| #[trigger]
            filed_all(no_values::<K>(), loaded).ids.contains_key(k) <==> exists|i: int|
                0 <= i < loaded.len() && (#[trigger] loaded[i]).1 == k,
        filed_all(no_values::<K>(), loaded).next == 0,
    decreases loaded.len(),
{
    if loaded.len() > 0 {
        let shorter = loaded.drop_last();
        filed_all_values(shorter);
        let before = filed_all(no_values::<K>(), shorter);
        let after = filed_all(no_values::<K>(), loaded);
        assert forall|id: u32| #[trigger] after.values.contains_key(id) <==> exists|i: int|
            0 <= i < loaded.len() && (#[trigger] loaded[i]).0.0 == id by {
            if before.values.contains_key(id) {
                let i = choose|i: int| 0 <= i < shorter.len() && (#[trigger] shorter[i]).0.0 == id;
                assert(loaded[i].0.0 == id);
            }
            if exists|i: int| 0 <= i < loaded.len() && (#[trigger] loaded[i]).0.0 == id {
                let i = choose|i: int| 0 <= i < loaded.len() && (#[trigger] loaded[i]).0.0 == id;
                if i < shorter.len() {
                    assert(shorter[i].0.0 == id);
                }
            }
        }
        assert forall|k: Seq<u8>| #[trigger] after.ids.contains_key(k) <==> exists|i: int|
            0 <= i < loaded.len() && (#[trigger] loaded[i]).1 == k by {
            if before.ids.contains_key(k) {
                let i = choose|i: int| 0 <= i < shorter.len() && (#[trigger] shorter[i]).1 == k;
                assert(loaded[i].1 == k);
            }
            if exists|i: int| 0 <= i < loaded.len() && (#[trigger] loaded[i]).1 == k {
                let i = choose|i: int| 0 <= i < loaded.len() && (#[trigger] loaded[i]).1 == k;
                if i < shorter.len() {
                    assert(shorter[i].1 == k);
                }
            }
        }
    }
}

impl<K> InternedIngredient<K> {
    fn duplicate_id(&self, id: InternId) -> (r: Arc<PicanteError>)
        ensures
            crate::error::is_cache_error(*r, duplicate_id_text(id, self.name())),
    {
        let mut message: String = String::new();
        message.append("duplicate interned id ");
        push_decimal(&mut message, id.0 as u64);
        message.append(" in `");
        message.append(self.kind_name);
        message.append("`");
        assert(message@ =~= duplicate_id_text(id, self.name()));
        Arc::new(PicanteError::Cache { message })
    }

    fn duplicate_value(&self, existing: InternId, id: InternId) -> (r: Arc<PicanteError>)
        ensures
            crate::error::is_cache_error(*r, duplicate_value_text(self.name(), existing, id)),
    {
        let mut message: String = String::new();
        message.append("duplicate interned value for `");
        message.append(self.kind_name);
        message.append("` (ids ");
        push_decimal(&mut message, existing.0 as u64);
        message.append(" and ");
        push_decimal(&mut message, id.0 as u64);
        message.append(")");
        assert(message@ =~= duplicate_value_text(self.name(), existing, id));
        Arc::new(PicanteError::Cache { message })
    }

    /// Load records in place of whatever the table held. Ids and values must not occur twice; the
    /// next new value gets the id after the largest loaded one.
    pub fn load_records<F: Fn(&[u8]) -> PicanteResult<LoadedValue<K>>>(
        &mut self,
        records: &Vec<Vec<u8>>,
        decode: F,
    ) -> (r: PicanteResult<()>)
        requires
            forall|b: &[u8]| decode.requires((b,)),
        ensures
            final(self).wf(),
            final(self).same_but_table(old(self)),
            exists|loaded: Seq<(InternId, Seq<u8>, Arc<K>)>|
                {
                    &&& #[trigger] decoded_prefix(decode, records@, loaded)
                    &&& all_distinct(loaded)
                    &&& match r {
                        Ok(_) => {
                            &&& loaded.len() == records@.len()
                            &&& final(self).table() == (InternView {
                                next: u32::saturating_add(max_id(loaded), 1),
                                ..filed_all(no_values::<K>(), loaded)
                            })
                        },
                        Err(error) => {
                            &&& loaded.len() < records@.len()
                            &&& exists|next: PicanteResult<LoadedValue<K>>|
                                {
                                    &&& crate::ingredient::derived::decodes(
                                        decode,
                                        records@[loaded.len() as int]@,
                                        next,
                                    )
                                    &&& #[trigger] load_refused(
                                        loaded,
                                        next,
                                        old(self).name(),
                                        error,
                                        final(self).table(),
                                    )
                                }
                        },
                    }
                },            values_loaded(final(self).table(), old(self).name(), records@, decode, r),
    {
        self.clear();
        let ghost mut loaded: Seq<(InternId, Seq<u8>, Arc<K>)> = Seq::empty();
        let mut largest: u32 = 0;
        let mut i: usize = 0;
        while i < records.len()
            invariant
                self.wf(),
                self.same_but_table(old(self)),
                forall|b: &[u8]| decode.requires((b,)),
                i <= records@.len(),
                loaded.len() == i,
                decoded_prefix(decode, records@, loaded),
                all_distinct(loaded),
                self.table() == filed_all(no_values::<K>(), loaded),
                largest == max_id(loaded),
            decreases records@.len() - i,
        {
            proof {
                filed_all_values(loaded);
            }
            let decoded = decode(records[i].as_slice());
            assert(crate::ingredient::derived::decodes(decode, records@[i as int]@, decoded));
            let record = match decoded {
                Ok(record) => record,
                Err(error) => {
                    assert(load_refused(loaded, decoded, old(self).name(), error, self.table()));
                    return Err(error);
                },
            };
            let id = record.id;
            let name: Vec<u8> = u32_to_le_bytes(id.0);
            assert(name@ == id_name(id.0));
            if self.by_id.contains(name.as_slice()) {
                let error = self.duplicate_id(id);
                assert(load_refused(loaded, decoded, old(self).name(), error, self.table()));
                return Err(error);
            }
            let key = match record.key {
                Ok(key) => key,
                Err(error) => {
                    assert(load_refused(loaded, decoded, old(self).name(), error, self.table()));
                    return Err(error);
                },
            };
            if let Some(existing) = self.by_value.insert(key.bytes(), id) {
                let error = self.duplicate_value(existing, id);
                assert(self.table() =~= InternView {
                    ids: filed_all(no_values::<K>(), loaded).ids.insert(key@, id),
                    ..filed_all(no_values::<K>(), loaded)
                });
                assert(load_refused(loaded, decoded, old(self).name(), error, self.table()));
                return Err(error);
            }
            if id.0 > largest {
                largest = id.0;
            }
            let ghost value = record.value;
            self.file(id, &key, record.value);
            proof {
                let prior = loaded;
                loaded = prior.push((id, key@, value));
                assert(loaded.drop_last() =~= prior);
                assert(self.table() =~= filed_all(no_values::<K>(), loaded));
                assert(decoded_as(decode, records@[i as int]@, loaded[i as int]));
                let before = filed_all(no_values::<K>(), prior);
                assert(!before.values.contains_key(id.0));
                assert(!before.ids.contains_key(key@));
                assert forall|a: int, b: int| 0 <= a < b < loaded.len() implies (
                #[trigger] loaded[a]).0 != (#[trigger] loaded[b]).0 && loaded[a].1
                    != loaded[b].1 by {
                    if b == prior.len() {
                        assert(prior[a] == loaded[a]);
                        assert(prior[a].0.0 != id.0);
                        assert(prior[a].1 != key@);
                    } else {
                        assert(prior[a] == loaded[a] && prior[b] == loaded[b]);
                    }
                }
                assert(decoded_prefix(decode, records@, loaded));
            }
            i = i + 1;
        }
        self.next_id = largest.saturating_add(1);
        assert(self.table() =~= InternView {
            next: u32::saturating_add(max_id(loaded), 1),
            ..filed_all(no_values::<K>(), loaded)
        });
        Ok(())
    }

    /// Apply one logged change. A logged value is filed; a logged deletion is passed over, since
    /// interned values are never deleted.
    pub fn apply_wal_entry(&mut self, record: Option<(InternId, Key, Arc<K>)>)
        requires
            old(self).wf(),
        ensures
            final(self).wf(),
            final(self).same_but_table(old(self)),
            final(self).table() == (match record {
                None => old(self).table(),
                Some((id, key, value)) => InternView {
                    next: if id.0 >= old(self).table().next {
                        u32::saturating_add(id.0, 1)
                    } else {
                        old(self).table().next
                    },
                    ..old(self).table().filed(id, key@, value)
                },
            }),
            final(self).table() == old(self).table().replayed(
                match record {
                    Some((id, key, value)) => Some((id, key@, value)),
                    None => None,
                },
            ),
    {
        if let Some((id, key, value)) = record {
            self.file(id, &key, value);
            if id.0 >= self.next_id {
                self.next_id = id.0.saturating_add(1);
            }
        }
    }
}

impl<K> InternedIngredient<K> {
    fn sorted_ids(&self) -> (r: Vec<u32>)
        requires
            self.wf(),
        ensures
            lists_ids(self.table(), r@),
    {
        broadcast use id_name_injective;

        let mut wide: Vec<u64> = Vec::new();
        let count: usize = self.by_id.len();
        let ghost order = self.by_id.order();
        proof {
            self.by_id.order_lists_domain();
        }
        let mut i: usize = 0;
        while i < count
            invariant
                self.wf(),
                order == self.by_id.order(),
                order.no_duplicates(),
                i <= count,
                count == order.len(),
                crate::order::ascending(wide@),
                forall|n: u64| #[trigger] wide@.contains(n) ==> n <= u32::MAX,
                forall|id: u32|
                    wide@.contains(id as u64) <==> #[trigger] order.take(i as int).contains(
                        id_name(id),
                    ),
            decreases count - i,
        {
            let id: u32 = self.by_id.value_at(i).id.0;
            let ghost shorter = order.take(i as int);
            let ghost longer = order.take(i + 1);
            assert(order[i as int] == id_name(id));
            assert(!shorter.contains(id_name(id))) by {
                if shorter.contains(id_name(id)) {
                    let k = choose|k: int| 0 <= k < shorter.len() && shorter[k] == id_name(id);
                    assert(order[k] == order[i as int]);
                }
            }
            insert_ascending(&mut wide, id as u64);
            assert forall|x: u32|
                wide@.contains(x as u64) <==> #[trigger] longer.contains(id_name(x)) by {
                assert(longer =~= shorter.push(id_name(id)));
                if shorter.contains(id_name(x)) {
                    let k = choose|k: int| 0 <= k < shorter.len() && shorter[k] == id_name(x);
                    assert(longer[k] == id_name(x));
                }
                if x == id {
                    assert(longer[i as int] == id_name(x));
                }
                if longer.contains(id_name(x)) && x != id {
                    let k = choose|k: int| 0 <= k < longer.len() && longer[k] == id_name(x);
                    if k == i {
                        id_name_injective(x, id);
                    }
                    assert(shorter[k] == id_name(x));
                }
            }
            i = i + 1;
        }
        let mut ids: Vec<u32> = Vec::new();
        let mut at: usize = 0;
        while at < wide.len()
            invariant
                at <= wide@.len(),
                ids@.len() == at,
                forall|n: u64| #[trigger] wide@.contains(n) ==> n <= u32::MAX,
                forall|k: int| 0 <= k < at ==> #[trigger] ids@[k] == wide@[k],
            decreases wide@.len() - at,
        {
            assert(wide@.contains(wide@[at as int]));
            ids.push(wide[at] as u32);
            at = at + 1;
        }
        proof {
            assert(order.take(i as int) =~= order);
            self.by_id.order_lists_domain();
            assert forall|id: u32| #[trigger] ids@.contains(id) <==> self.table().values.contains_key(
                id,
            ) by {
                assert(order.contains(id_name(id)) <==> self.by_id@.contains_key(id_name(id)));
                if ids@.contains(id) {
                    let k = choose|k: int| 0 <= k < ids@.len() && ids@[k] == id;
                    assert(wide@[k] == id);
                }
                if wide@.contains(id as u64) {
                    let k = choose|k: int| 0 <= k < wide@.len() && wide@[k] == id as u64;
                    assert(ids@[k] == id);
                }
            }
        }
        ids
    }

    /// Encode every value, by ascending id. The first encoding that fails ends the save with its
    /// error.
    pub fn save_records<F: Fn(InternId, &Arc<K>) -> PicanteResult<Vec<u8>>>(&self, encode: F) -> (r:
        PicanteResult<Vec<Vec<u8>>>)
        requires
            self.wf(),
            forall|id: InternId, v: &Arc<K>| encode.requires((id, v)),
        ensures
            exists|ids: Seq<u32>|
                {
                    &&& #[trigger] lists_ids(self.table(), ids)
                    &&& match r {
                        Ok(records) => {
                            &&& records@.len() == ids.len()
                            &&& forall|i: int|
                                0 <= i < ids.len() ==> value_encodes(
                                    encode,
                                    #[trigger] ids[i],
                                    self.table().values[ids[i]].1,
                                    Ok(records@[i]),
                                )
                        },
                        Err(error) => exists|n: int| #[trigger]
                            stops_at(encode, ids, self.table(), n, error),
                    }
                },
    {
        let ids: Vec<u32> = self.sorted_ids();
        let mut records: Vec<Vec<u8>> = Vec::new();
        let mut i: usize = 0;
        while i < ids.len()
            invariant
                self.wf(),
                lists_ids(self.table(), ids@),
                forall|id: InternId, v: &Arc<K>| encode.requires((id, v)),
                i <= ids@.len(),
                records@.len() == i,
                forall|j: int|
                    0 <= j < i ==> value_encodes(
                        encode,
                        #[trigger] ids@[j],
                        self.table().values[ids@[j]].1,
                        Ok(records@[j]),
                    ),
            decreases ids@.len() - i,
        {
            let id: u32 = ids[i];
            assert(ids@.contains(id));
            assert(self.table().values.contains_key(id));
            let name: Vec<u8> = u32_to_le_bytes(id);
            assert(name@ == id_name(id));
            if let Some(interned) = self.by_id.get(name.as_slice()) {
                let encoded = encode(InternId(id), &interned.value);
                assert(value_encodes(encode, id, self.table().values[id].1, encoded));
                match encoded {
                    Ok(bytes) => {
                        records.push(bytes);
                    },
                    Err(error) => {
                        proof {
                            assert forall|j: int| 0 <= j < i implies value_may_encode(
                                encode,
                                #[trigger] ids@[j],
                                self.table().values[ids@[j]].1,
                            ) by {
                                assert(value_encodes(
                                    encode,
                                    ids@[j],
                                    self.table().values[ids@[j]].1,
                                    Ok(records@[j]),
                                ));
                            }
                            assert(stops_at(encode, ids@, self.table(), i as int, error));
                        }
                        return Err(error);
                    },
                }
            }
            i = i + 1;
        }
        Ok(records)
    }

    /// The values that came in after a revision, for the write-ahead log: none. Interning takes no
    /// part in the revisions, so interned values are saved in full snapshots only.
    pub fn save_incremental_records(&self, since_revision: u64) -> (r: Vec<
        (u64, Vec<u8>, Option<Vec<u8>>),
    >)
        ensures
            r@.len() == 0,
    {
        Vec::new()
    }
}

/// A table that was loaded without an error is consistent: each id leads to one value and each
/// value to one id, and the next new value gets an id that no loaded value has.
pub proof fn loaded_table_is_paired<K>(loaded: Seq<(InternId, Seq<u8>, Arc<K>)>)
    requires
        all_distinct(loaded),
        max_id(loaded) < u32::MAX,
    ensures
        (InternView {
            next: u32::saturating_add(max_id(loaded), 1),
            ..filed_all(no_values::<K>(), loaded)
        }).paired(),
    decreases loaded.len(),
{
    if loaded.len() > 0 {
        let shorter = loaded.drop_last();
        assert forall|i: int, j: int| 0 <= i < j < shorter.len() implies (#[trigger] shorter[i]).0
            != (#[trigger] shorter[j]).0 && shorter[i].1 != shorter[j].1 by {
            assert(loaded[i] == shorter[i] && loaded[j] == shorter[j]);
        }
        loaded_table_is_paired(shorter);
        filed_all_values(shorter);
        let before = filed_all(no_values::<K>(), shorter);
        let paired_before = InternView {
            next: u32::saturating_add(max_id(shorter), 1),
            ..before
        };
        assert(paired_before.paired());
        let last = loaded.last();
        assert(!before.values.contains_key(last.0.0)) by {
            if before.values.contains_key(last.0.0) {
                let i = choose|i: int|
                    0 <= i < shorter.len() && (#[trigger] shorter[i]).0.0 == last.0.0;
                assert(loaded[i].0 == loaded[loaded.len() - 1].0);
            }
        }
        assert(!before.ids.contains_key(last.1)) by {
            if before.ids.contains_key(last.1) {
                let i = choose|i: int|
                    0 <= i < shorter.len() && (#[trigger] shorter[i]).1 == last.1;
                assert(loaded[i].1 == loaded[loaded.len() - 1].1);
            }
        }
        let after = filed_all(no_values::<K>(), loaded);
        assert forall|k: Seq<u8>| #[trigger] after.ids.contains_key(k) implies {
            &&& after.values.contains_key(after.ids[k].0)
            &&& after.values[after.ids[k].0].0 == k
        } by {
            if k != last.1 {
                assert(paired_before.ids.contains_key(k));
            }
        }
        assert forall|id: u32| #[trigger] after.values.contains_key(id) implies {
            &&& after.ids.contains_key(after.values[id].0)
            &&& after.ids[after.values[id].0] == InternId(id)
            &&& id <= max_id(loaded)
        } by {
            if id != last.0.0 {
                assert(paired_before.values.contains_key(id));
            }
        }
    }
}

} // verus!
