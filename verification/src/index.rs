//! Hash indexes from byte strings to slot numbers.
use dashmap::DashMap;
use vstd::prelude::*;

verus! {

/// The hash map of the `im` crate, whose clones share structure.
#[verifier::external_type_specification]
#[verifier::external_body]
#[verifier::reject_recursive_types(K)]
#[verifier::reject_recursive_types(V)]
#[verifier::reject_recursive_types(S)]
pub struct ExImHashMap<K, V, S>(im::HashMap<K, V, S>);

/// The sharded hash map of the `dashmap` crate.
#[verifier::external_type_specification]
#[verifier::external_body]
#[verifier::reject_recursive_types(K)]
#[verifier::reject_recursive_types(V)]
#[verifier::reject_recursive_types(S)]
pub struct ExDashMap<K, V, S>(DashMap<K, V, S>);

/// The map with nothing in it.
pub open spec fn no_entries() -> Map<Seq<u8>, usize> {
    Map::empty()
}

/// What a persistent hash map holds: each key's bytes with the value filed under them.
pub uninterp spec fn im_contents(map: im::HashMap<Vec<u8>, usize>) -> Map<Seq<u8>, usize>;

/// What a sharded hash map holds: each key's bytes with the value filed under them.
pub uninterp spec fn dash_contents(map: DashMap<Vec<u8>, usize>) -> Map<Seq<u8>, usize>;

/// Calls `im::HashMap::new`: the map it makes holds nothing.
#[verifier::external_body]
fn im_new() -> (r: im::HashMap<Vec<u8>, usize>)
    ensures
        im_contents(r) == no_entries(),
{
    im::HashMap::new()
}

/// Calls `im::HashMap::get`: the value filed under `key`, if there is one.
#[verifier::external_body]
fn im_get(map: &im::HashMap<Vec<u8>, usize>, key: &[u8]) -> (r: Option<usize>)
    ensures
        r == (if im_contents(*map).contains_key(key@) {
            Some(im_contents(*map)[key@])
        } else {
            None
        }),
{
    map.get(key).copied()
}

/// Calls `im::HashMap::insert`: files `value` under `key`, in place of what was there.
#[verifier::external_body]
fn im_insert(map: &mut im::HashMap<Vec<u8>, usize>, key: Vec<u8>, value: usize)
    ensures
        im_contents(*final(map)) == im_contents(*old(map)).insert(key@, value),
{
    map.insert(key, value);
}

/// Calls `im::HashMap::remove`: nothing is filed under `key` any more.
#[verifier::external_body]
fn im_remove(map: &mut im::HashMap<Vec<u8>, usize>, key: &[u8])
    ensures
        im_contents(*final(map)) == im_contents(*old(map)).remove(key@),
{
    map.remove(key);
}

/// Calls `im::HashMap::clone`: the clone holds what the original holds.
#[verifier::external_body]
fn im_clone(map: &im::HashMap<Vec<u8>, usize>) -> (r: im::HashMap<Vec<u8>, usize>)
    ensures
        im_contents(r) == im_contents(*map),
{
    map.clone()
}

/// Calls `DashMap::new`: the map it makes holds nothing.
#[verifier::external_body]
fn dash_new() -> (r: DashMap<Vec<u8>, usize>)
    ensures
        dash_contents(r) == no_entries(),
{
    DashMap::new()
}

/// Calls `DashMap::get`: the value filed under `key`, if there is one.
#[verifier::external_body]
fn dash_get(map: &DashMap<Vec<u8>, usize>, key: &[u8]) -> (r: Option<usize>)
    ensures
        r == (if dash_contents(*map).contains_key(key@) {
            Some(dash_contents(*map)[key@])
        } else {
            None
        }),
{
    map.get(key).map(|slot| *slot)
}

/// Calls `DashMap::insert`: files `value` under `key`, in place of what was there. The
/// exclusive borrow keeps every other user of the map out.
#[verifier::external_body]
fn dash_insert(map: &mut DashMap<Vec<u8>, usize>, key: Vec<u8>, value: usize)
    ensures
        dash_contents(*final(map)) == dash_contents(*old(map)).insert(key@, value),
{
    map.insert(key, value);
}

/// Calls `DashMap::remove`: nothing is filed under `key` any more. The exclusive borrow
/// keeps every other user of the map out.
#[verifier::external_body]
fn dash_remove(map: &mut DashMap<Vec<u8>, usize>, key: &[u8])
    ensures
        dash_contents(*final(map)) == dash_contents(*old(map)).remove(key@),
{
    map.remove(key);
}

/// An index from byte strings to slot numbers.
pub trait SlotIndex: Sized {
    /// What is filed, by the bytes it is filed under.
    spec fn filed(&self) -> Map<Seq<u8>, usize>;

    /// An index with nothing in it.
    fn empty() -> (r: Self)
        ensures
            r.filed() == no_entries(),
    ;

    /// The slot filed under `key`.
    fn lookup(&self, key: &[u8]) -> (r: Option<usize>)
        ensures
            r == (if self.filed().contains_key(key@) {
                Some(self.filed()[key@])
            } else {
                None
            }),
    ;

    /// File `slot` under `key`.
    fn file(&mut self, key: Vec<u8>, slot: usize)
        ensures
            final(self).filed() == old(self).filed().insert(key@, slot),
    ;

    /// Drop what is filed under `key`.
    fn unfile(&mut self, key: &[u8])
        ensures
            final(self).filed() == old(self).filed().remove(key@),
    ;
}

/// An index that can be cloned cheaply; the clones share structure.
pub struct PersistentIndex {
    map: im::HashMap<Vec<u8>, usize>,
}

/// An index built for maps that many tasks use.
pub struct ConcurrentIndex {
    map: DashMap<Vec<u8>, usize>,
}

impl SlotIndex for PersistentIndex {
    closed spec fn filed(&self) -> Map<Seq<u8>, usize> {
        im_contents(self.map)
    }

    fn empty() -> (r: Self) {
        PersistentIndex { map: im_new() }
    }

    fn lookup(&self, key: &[u8]) -> (r: Option<usize>) {
        im_get(&self.map, key)
    }

    fn file(&mut self, key: Vec<u8>, slot: usize) {
        im_insert(&mut self.map, key, slot)
    }

    fn unfile(&mut self, key: &[u8]) {
        im_remove(&mut self.map, key)
    }
}

impl SlotIndex for ConcurrentIndex {
    closed spec fn filed(&self) -> Map<Seq<u8>, usize> {
        dash_contents(self.map)
    }

    fn empty() -> (r: Self) {
        ConcurrentIndex { map: dash_new() }
    }

    fn lookup(&self, key: &[u8]) -> (r: Option<usize>) {
        dash_get(&self.map, key)
    }

    fn file(&mut self, key: Vec<u8>, slot: usize) {
        dash_insert(&mut self.map, key, slot)
    }

    fn unfile(&mut self, key: &[u8]) {
        dash_remove(&mut self.map, key)
    }
}

impl Clone for PersistentIndex {
    fn clone(&self) -> (r: Self)
        ensures
            r.filed() == self.filed(),
    {
        PersistentIndex { map: im_clone(&self.map) }
    }
}

} // verus!
