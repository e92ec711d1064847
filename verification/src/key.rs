//! Query key encoding and erased identifiers used for dependency graphs.
use crate::error::{PicanteError, PicanteResult};
use crate::postcard::{decode_u32, encode_u32};
use crate::share::share;
use std::collections::hash_map::DefaultHasher;
use std::hash::Hasher;
use std::sync::Arc;
use vstd::bytes::{u32_to_le_bytes, u64_to_le_bytes};
use vstd::prelude::*;
#[allow(unused_imports)]
use vstd::std_specs::hash::DefaultHasherAdditionalSpecFns;
#[allow(unused_imports)]
use vstd::string::StringSliceAdditionalSpecFns;

verus! {

/// Stable identifier for a query/input kind.
#[derive(Copy, Clone, Eq, PartialEq, Hash, Debug, Structural)]
pub struct QueryKindId(pub u32);

/// The 32-bit FNV-1a hash of a byte sequence.
pub open spec fn fnv1a(bytes: Seq<u8>) -> u32
    decreases bytes.len(),
{
    if bytes.len() == 0 {
        0x811c_9dc5u32
    } else {
        u32::wrapping_mul(fnv1a(bytes.drop_last()) ^ (bytes.last() as u32), 0x0100_0193u32)
    }
}

impl QueryKindId {
    /// Convert to the underlying `u32`.
    pub fn as_u32(self) -> (r: u32)
        ensures
            r == self.0,
    {
        self.0
    }

    /// Create a stable id from a string.
    ///
    /// The id is the 32-bit FNV-1a hash of the string's UTF-8 bytes, so it does not
    /// change from run to run.
    pub fn from_str(s: &str) -> (r: Self)
        ensures
            r.0 == fnv1a(s.spec_bytes()),
    {
        let bytes: &[u8] = s.as_bytes();
        let mut hash: u32 = 0x811c_9dc5;
        let mut i: usize = 0;
        while i < bytes.len()
            invariant
                i <= bytes@.len(),
                hash == fnv1a(bytes@.take(i as int)),
            decreases bytes@.len() - i,
        {
            assert(bytes@.take(i + 1).drop_last() =~= bytes@.take(i as int));
            assert(bytes@.take(i + 1).last() == bytes@[i as int]);
            hash = (hash ^ (bytes[i] as u32)).wrapping_mul(0x0100_0193);
            i = i + 1;
        }
        assert(bytes@.take(i as int) =~= bytes@);
        QueryKindId(hash)
    }
}

/// The hash kept beside a key: the default hasher fed with the length (as eight
/// little-endian bytes) and then with the bytes themselves.
pub open spec fn stable_hash_of(bytes: Seq<u8>) -> u64 {
    DefaultHasher::spec_finish(
        seq![vstd::bytes::spec_u64_to_le_bytes(bytes.len() as u64), bytes],
    )
}

fn stable_hash(bytes: &[u8]) -> (r: u64)
    ensures
        r == stable_hash_of(bytes@),
{
    let mut hasher = DefaultHasher::new();
    let prefix: Vec<u8> = u64_to_le_bytes(bytes.len() as u64);
    hasher.write(prefix.as_slice());
    hasher.write(bytes);
    assert(hasher@ =~= seq![vstd::bytes::spec_u64_to_le_bytes(bytes@.len() as u64), bytes@]);
    hasher.finish()
}

/// Whether two byte strings are the same.
pub fn same_bytes(a: &[u8], b: &[u8]) -> (r: bool)
    ensures
        r == (a@ == b@),
{
    if a.len() != b.len() {
        return false;
    }
    let mut i: usize = 0;
    while i < a.len()
        invariant
            i <= a@.len(),
            a@.len() == b@.len(),
            a@.take(i as int) == b@.take(i as int),
        decreases a@.len() - i,
    {
        if a[i] != b[i] {
            return false;
        }
        assert(a@.take(i + 1) =~= a@.take(i as int).push(a@[i as int]));
        assert(b@.take(i + 1) =~= b@.take(i as int).push(b@[i as int]));
        i = i + 1;
    }
    assert(a@.take(i as int) =~= a@);
    assert(b@.take(i as int) =~= b@);
    true
}

/// Encoded bytes of a key, plus a deterministic hash for tracing and debugging.
///
/// Two keys are equal exactly when their bytes are; the hash only follows the bytes.
#[derive(Debug, Hash)]
pub struct Key {
    bytes: Arc<Vec<u8>>,
    hash: u64,
}

impl View for Key {
    type V = Seq<u8>;

    closed spec fn view(&self) -> Seq<u8> {
        self.bytes@
    }
}

impl Key {
    #[verifier::type_invariant]
    spec fn hash_matches(self) -> bool {
        self.hash == stable_hash_of(self.bytes@)
    }

    /// The key that an encoder's outcome stands for: its bytes, or an error that carries its
    /// message.
    pub fn encode_facet(encoded: Result<Vec<u8>, String>) -> (r: PicanteResult<Self>)
        ensures
            match encoded {
                Ok(bytes) => r matches Ok(key) && key@ == bytes@,
                Err(message) => r matches Err(error) && crate::error::is_encode_error(*error, "key"@, message@),
            },
    {
        match encoded {
            Ok(bytes) => Ok(Key::from_bytes(bytes)),
            Err(message) => Err(Arc::new(PicanteError::Encode { what: "key", message })),
        }
    }

    /// The value that a decoder made of a key, or an error that carries its message.
    pub fn decode_facet<T>(decoded: Result<T, String>) -> (r: PicanteResult<T>)
        ensures
            match decoded {
                Ok(value) => r == Ok::<T, Arc<PicanteError>>(value),
                Err(message) => r matches Err(error) && crate::error::is_decode_error(*error, "key"@, message@),
            },
    {
        match decoded {
            Ok(value) => Ok(value),
            Err(message) => Err(Arc::new(PicanteError::Decode { what: "key", message })),
        }
    }

    /// The key that stands for a number.
    pub fn for_u32(n: u32) -> (r: PicanteResult<Self>)
        ensures
            r matches Ok(key) && key@ == crate::postcard::varint(n as nat),
    {
        Key::encode_facet(encode_u32(n))
    }

    /// The number that a key stands for.
    pub fn as_u32(&self) -> (r: PicanteResult<u32>)
        ensures
            match crate::postcard::u32_from_postcard(self@) {
                Ok(n) => r == Ok::<u32, Arc<PicanteError>>(n),
                Err(message) => r matches Err(error) && crate::error::is_decode_error(*error, "key"@, message),
            },
            forall|n: u32| #[trigger]
                crate::postcard::encodes_u32(n, self@) ==> r == Ok::<u32, Arc<PicanteError>>(n),
    {
        Key::decode_facet(decode_u32(self.bytes()))
    }

    /// Construct from already-encoded bytes.
    pub fn from_bytes(bytes: Vec<u8>) -> (r: Self)
        ensures
            r@ == bytes@,
    {
        let hash: u64 = stable_hash(bytes.as_slice());
        Key { bytes: Arc::new(bytes), hash }
    }

    /// Access the encoded bytes.
    pub fn bytes(&self) -> (r: &[u8])
        ensures
            r@ == self@,
    {
        self.bytes.as_slice()
    }

    /// Deterministic hash of the encoded bytes.
    pub fn hash(&self) -> (r: u64)
        ensures
            r == stable_hash_of(self@),
    {
        proof {
            use_type_invariant(self);
        }
        self.hash
    }

    /// Length in bytes of the encoded key.
    pub fn len(&self) -> (r: usize)
        ensures
            r == self@.len(),
    {
        self.bytes.len()
    }

    /// Returns `true` if the encoded key is empty.
    pub fn is_empty(&self) -> (r: bool)
        ensures
            r == (self@.len() == 0),
    {
        self.bytes.len() == 0
    }
}

impl Clone for Key {
    fn clone(&self) -> (r: Self)
        ensures
            r == *self,
    {
        proof {
            use_type_invariant(self);
        }
        Key { bytes: share(&self.bytes), hash: self.hash }
    }
}

impl PartialEq for Key {
    fn eq(&self, other: &Self) -> (r: bool) {
        same_bytes(self.bytes.as_slice(), other.bytes.as_slice())
    }
}

impl vstd::std_specs::cmp::PartialEqSpecImpl for Key {
    open spec fn obeys_eq_spec() -> bool {
        true
    }

    open spec fn eq_spec(&self, other: &Self) -> bool {
        self@ == other@
    }
}

impl Eq for Key {

}

/// Equal keys have equal hashes.
pub proof fn equal_keys_hash_equal(a: Key, b: Key)
    requires
        a@ == b@,
    ensures
        stable_hash_of(a@) == stable_hash_of(b@),
{
}

/// A vertex of the dependency graph: a kind and the encoded key within that kind.
pub type Node = (u32, Seq<u8>);

/// Erased key of a query or input.
#[derive(Debug, Hash)]
pub struct DynKey {
    /// Kind identifier.
    pub kind: QueryKindId,
    /// Encoded key.
    pub key: Key,
}

/// A recorded dependency edge.
#[derive(Debug, Hash)]
pub struct Dep {
    /// The depended-on query kind.
    pub kind: QueryKindId,
    /// Encoded key for that kind.
    pub key: Key,
}

impl View for DynKey {
    type V = Node;

    open spec fn view(&self) -> Node {
        (self.kind.0, self.key@)
    }
}

impl View for Dep {
    type V = Node;

    open spec fn view(&self) -> Node {
        (self.kind.0, self.key@)
    }
}

impl Clone for DynKey {
    fn clone(&self) -> (r: Self)
        ensures
            r == *self,
    {
        DynKey { kind: self.kind, key: self.key.clone() }
    }
}

impl Clone for Dep {
    fn clone(&self) -> (r: Self)
        ensures
            r == *self,
    {
        Dep { kind: self.kind, key: self.key.clone() }
    }
}

impl PartialEq for DynKey {
    fn eq(&self, other: &Self) -> (r: bool) {
        self.kind.0 == other.kind.0 && same_bytes(self.key.bytes(), other.key.bytes())
    }
}

impl vstd::std_specs::cmp::PartialEqSpecImpl for DynKey {
    open spec fn obeys_eq_spec() -> bool {
        true
    }

    open spec fn eq_spec(&self, other: &Self) -> bool {
        self@ == other@
    }
}

impl Eq for DynKey {

}

impl PartialEq for Dep {
    fn eq(&self, other: &Self) -> (r: bool) {
        self.kind.0 == other.kind.0 && same_bytes(self.key.bytes(), other.key.bytes())
    }
}

impl vstd::std_specs::cmp::PartialEqSpecImpl for Dep {
    open spec fn obeys_eq_spec() -> bool {
        true
    }

    open spec fn eq_spec(&self, other: &Self) -> bool {
        self@ == other@
    }
}

impl Eq for Dep {

}

/// The byte string under which a vertex is filed: the kind as four little-endian
/// bytes, followed by the key bytes.
pub open spec fn node_bytes(n: Node) -> Seq<u8> {
    vstd::bytes::spec_u32_to_le_bytes(n.0) + n.1
}

/// Different vertices are filed under different byte strings.
pub broadcast proof fn node_bytes_injective(a: Node, b: Node)
    requires
        #[trigger] node_bytes(a) == #[trigger] node_bytes(b),
    ensures
        a == b,
{
    vstd::bytes::lemma_auto_spec_u32_to_from_le_bytes();
    let pa = vstd::bytes::spec_u32_to_le_bytes(a.0);
    let pb = vstd::bytes::spec_u32_to_le_bytes(b.0);
    assert(pa =~= node_bytes(a).take(4));
    assert(pb =~= node_bytes(b).take(4));
    assert(a.0 == vstd::bytes::spec_u32_from_le_bytes(pa));
    assert(b.0 == vstd::bytes::spec_u32_from_le_bytes(pb));
    assert(a.1 =~= node_bytes(a).skip(4));
    assert(b.1 =~= node_bytes(b).skip(4));
}

/// The byte string under which the vertex `(kind, key)` is filed.
pub(crate) fn file_name(kind: QueryKindId, key: &Key) -> (r: Vec<u8>)
    ensures
        r@ == node_bytes((kind.0, key@)),
{
    let mut out: Vec<u8> = u32_to_le_bytes(kind.0);
    out.extend_from_slice(key.bytes());
    assert(out@ =~= node_bytes((kind.0, key@)));
    out
}

impl DynKey {
    /// The dependency edge that leads to this vertex.
    pub fn to_dep(&self) -> (r: Dep)
        ensures
            r@ == self@,
            r.kind == self.kind,
            r.key == self.key,
    {
        Dep { kind: self.kind, key: self.key.clone() }
    }
}

impl Dep {
    /// The vertex this edge leads to.
    pub fn to_dyn_key(&self) -> (r: DynKey)
        ensures
            r@ == self@,
            r.kind == self.kind,
            r.key == self.key,
    {
        DynKey { kind: self.kind, key: self.key.clone() }
    }
}

} // verus!
