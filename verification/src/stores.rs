//! Durable storage behind the broker: one stable cell for the domain
//! separator and three stable B-tree maps for the authorization table, the
//! share index and the encrypted values.
//!
//! Each store wraps a collection of `ic_stable_structures` and is trusted
//! only at this boundary: an uninterpreted model function names what the
//! collection holds, and every method the library calls carries a contract
//! over that model, matching what the crate's source shows.

use vstd::prelude::*;

use crate::types::{ByteBuf, KeyId, KeyName, MapId, MapKey, Principal};
use ic_stable_structures::memory_manager::{MemoryId, MemoryManager, VirtualMemory};
use ic_stable_structures::storable::Blob;
use ic_stable_structures::{DefaultMemoryImpl, StableBTreeMap, StableCell};

verus! {

/// The mathematical stand-in for a key identifier: owner bytes and name bytes.
pub type KeyIdV = (Seq<u8>, Seq<u8>);

pub open spec fn kid_view(k: KeyId) -> KeyIdV {
    (k.0@, k.1@)
}

/// Lexicographic order on byte strings, the order in which the stable maps
/// iterate their `Blob` key components.
pub open spec fn lex_lt(a: Seq<u8>, b: Seq<u8>) -> bool
    decreases a.len(),
{
    if b.len() == 0 {
        false
    } else if a.len() == 0 {
        true
    } else if a[0] < b[0] {
        true
    } else if a[0] > b[0] {
        false
    } else {
        lex_lt(a.subrange(1, a.len() as int), b.subrange(1, b.len() as int))
    }
}

/// Lexicographic order on key ids: by owner bytes, then by name bytes — the
/// order of the stable maps' (owner, name) key tuples.
pub open spec fn kid_lex_lt(a: KeyIdV, b: KeyIdV) -> bool {
    lex_lt(a.0, b.0) || (a.0 == b.0 && lex_lt(a.1, b.1))
}

pub open spec fn map_is_empty<K, V>(m: Map<K, V>) -> bool {
    m =~= Map::<K, V>::empty()
}

pub open spec fn set_is_empty<A>(s: Set<A>) -> bool {
    s =~= Set::<A>::empty()
}

/// Whether the value store holds, somewhere in the map `mid`, an entry whose
/// value is `v`.
pub open spec fn vm_has_value(
    m: Map<(KeyIdV, Seq<u8>), Seq<u8>>,
    mid: KeyIdV,
    v: Seq<u8>,
) -> bool {
    exists|mk: Seq<u8>| m.dom().contains((mid, mk)) && m[(mid, mk)] == v
}

/// Whether the value store holds at least one entry of the map (owner, name).
pub open spec fn vm_has_name(
    m: Map<(KeyIdV, Seq<u8>), Seq<u8>>,
    owner: Seq<u8>,
    name: Seq<u8>,
) -> bool {
    exists|mk: Seq<u8>| m.dom().contains(((owner, name), mk))
}

pub proof fn lemma_lex_lt_irreflexive(a: Seq<u8>)
    ensures
        !lex_lt(a, a),
    decreases a.len(),
{
    if a.len() > 0 {
        lemma_lex_lt_irreflexive(a.subrange(1, a.len() as int));
    }
}

/// Whether a memory region holds no data from an earlier run: fresh memory
/// rather than state surviving a restart.
pub uninterp spec fn region_is_empty(r: MemoryRegion) -> bool;

/// What the domain-separator cell holds.
pub uninterp spec fn ds_model(s: DomainSeparatorStore) -> Seq<u8>;

/// What the authorization table holds: (grantee, key id) -> stored level byte.
pub uninterp spec fn ac_model(s: AccessControlStore) -> Map<(Seq<u8>, KeyIdV), u8>;

/// What the share index holds: the set of (key id, grantee) pairs.
pub uninterp spec fn sk_model(s: SharedKeysStore) -> Set<(KeyIdV, Seq<u8>)>;

/// What the encrypted value store holds: (map id, map key) -> value bytes.
pub uninterp spec fn vm_model(s: ValuesStore) -> Map<(KeyIdV, Seq<u8>), Seq<u8>>;

/// One region of the process's durable memory, handed out by the memory
/// manager; each store below takes exclusive ownership of one region.
#[verifier::external_body]
pub struct MemoryRegion {
    inner: VirtualMemory<DefaultMemoryImpl>,
}

/// Relies on ic_stable_structures::memory_manager::MemoryManager::init and
/// MemoryManager::get: the four regions are pairwise-disjoint views of the
/// underlying memory. Over memory with no earlier data every region starts
/// empty; after a restart each region holds what the previous run left, so
/// no emptiness is promised here. Call it once per process and back at most
/// one store with each region: a region shared by two stores would let one
/// store's writes change what the other holds.
#[verifier::external_body]
pub fn memory_regions() -> (r: (MemoryRegion, MemoryRegion, MemoryRegion, MemoryRegion)) {
    let manager = MemoryManager::init(DefaultMemoryImpl::default());
    (
        MemoryRegion { inner: manager.get(MemoryId::new(0)) },
        MemoryRegion { inner: manager.get(MemoryId::new(1)) },
        MemoryRegion { inner: manager.get(MemoryId::new(2)) },
        MemoryRegion { inner: manager.get(MemoryId::new(3)) },
    )
}

/// The durable cell holding the deployment-wide domain separator.
#[verifier::external_body]
pub struct DomainSeparatorStore {
    inner: StableCell<Vec<u8>, VirtualMemory<DefaultMemoryImpl>>,
}

impl DomainSeparatorStore {
    /// Relies on ic_stable_structures::StableCell::init: over an empty
    /// region the cell stores exactly the given value; over a region that a
    /// cell of the same layout wrote earlier it keeps the stored value and
    /// the given one is only a default.
    #[verifier::external_body]
    pub fn new(region: MemoryRegion, bytes: Vec<u8>) -> (s: Self)
        ensures
            region_is_empty(region) ==> ds_model(s) == bytes@,
    {
        DomainSeparatorStore { inner: StableCell::init(region.inner, bytes) }
    }

    /// Relies on ic_stable_structures::StableCell::get: returns the value the
    /// cell holds.
    #[verifier::external_body]
    pub fn get(&self) -> (r: Vec<u8>)
        ensures
            r@ == ds_model(*self),
    {
        self.inner.get().clone()
    }
}

/// The durable authorization table, keyed by (grantee, (owner, key name)).
#[verifier::external_body]
pub struct AccessControlStore {
    inner: StableBTreeMap<(Blob<29>, (Blob<29>, Blob<32>)), u8, VirtualMemory<DefaultMemoryImpl>>,
}

impl AccessControlStore {
    /// Relies on ic_stable_structures::StableBTreeMap::init: over an empty
    /// region the map holds no entries; over a region holding an earlier
    /// run's map it loads that map, and nothing is promised of its contents.
    #[verifier::external_body]
    pub fn new(region: MemoryRegion) -> (s: Self)
        ensures
            region_is_empty(region) ==> map_is_empty(ac_model(s)),
    {
        AccessControlStore { inner: StableBTreeMap::init(region.inner) }
    }

    /// Relies on ic_stable_structures::StableBTreeMap::get: returns the value
    /// stored under the key, if any.
    #[verifier::external_body]
    pub fn get(&self, user: &Principal, key_id: &KeyId) -> (r: Option<u8>)
        requires
            user@.len() <= 29,
            key_id.0@.len() <= 29,
            key_id.1@.len() <= 32,
        ensures
            ({
                let k = (user@, kid_view(*key_id));
                match r {
                    Some(v) => ac_model(*self).contains_key(k) && ac_model(*self)[k] == v,
                    None => !ac_model(*self).contains_key(k),
                }
            }),
    {
        let k: (Blob<29>, (Blob<29>, Blob<32>)) = (
            Blob::try_from(user.bytes.as_slice()).unwrap(),
            (
                Blob::try_from(key_id.0.bytes.as_slice()).unwrap(),
                Blob::try_from(key_id.1.bytes.as_slice()).unwrap(),
            ),
        );
        self.inner.get(&k)
    }

    /// Relies on ic_stable_structures::StableBTreeMap::insert: stores the
    /// value under the key and returns the previous value, if any.
    #[verifier::external_body]
    pub fn insert(&mut self, user: &Principal, key_id: &KeyId, v: u8) -> (prev: Option<u8>)
        requires
            user@.len() <= 29,
            key_id.0@.len() <= 29,
            key_id.1@.len() <= 32,
        ensures
            ac_model(*final(self)) == ac_model(*old(self)).insert((user@, kid_view(*key_id)), v),
            ({
                let k = (user@, kid_view(*key_id));
                match prev {
                    Some(p) => ac_model(*old(self)).contains_key(k) && ac_model(*old(self))[k]
                        == p,
                    None => !ac_model(*old(self)).contains_key(k),
                }
            }),
    {
        let k: (Blob<29>, (Blob<29>, Blob<32>)) = (
            Blob::try_from(user.bytes.as_slice()).unwrap(),
            (
                Blob::try_from(key_id.0.bytes.as_slice()).unwrap(),
                Blob::try_from(key_id.1.bytes.as_slice()).unwrap(),
            ),
        );
        self.inner.insert(k, v)
    }

    /// Relies on ic_stable_structures::StableBTreeMap::remove: removes the
    /// entry under the key and returns its value, if any.
    #[verifier::external_body]
    pub fn remove(&mut self, user: &Principal, key_id: &KeyId) -> (prev: Option<u8>)
        requires
            user@.len() <= 29,
            key_id.0@.len() <= 29,
            key_id.1@.len() <= 32,
        ensures
            ac_model(*final(self)) == ac_model(*old(self)).remove((user@, kid_view(*key_id))),
            ({
                let k = (user@, kid_view(*key_id));
                match prev {
                    Some(p) => ac_model(*old(self)).contains_key(k) && ac_model(*old(self))[k]
                        == p,
                    None => !ac_model(*old(self)).contains_key(k),
                }
            }),
    {
        let k: (Blob<29>, (Blob<29>, Blob<32>)) = (
            Blob::try_from(user.bytes.as_slice()).unwrap(),
            (
                Blob::try_from(key_id.0.bytes.as_slice()).unwrap(),
                Blob::try_from(key_id.1.bytes.as_slice()).unwrap(),
            ),
        );
        self.inner.remove(&k)
    }

    /// Relies on ic_stable_structures::StableBTreeMap::range together with
    /// Iterator::take_while: entries are visited in ascending key order from
    /// the lower bound (user, minimal key id); keys sharing the first
    /// component are contiguous in that order and their key-id components
    /// ascend in the lexicographic slice order of Blob::cmp, so the scan
    /// yields exactly the key ids granted to `user`, strictly ascending.
    #[verifier::external_body]
    pub fn keys_for_user(&self, user: &Principal) -> (r: Vec<KeyId>)
        requires
            user@.len() <= 29,
        ensures
            forall|i: int|
                0 <= i < r@.len() ==> #[trigger] ac_model(*self).dom().contains(
                    (user@, kid_view(r@[i])),
                ),
            forall|k: KeyIdV|
                #[trigger] ac_model(*self).dom().contains((user@, k)) ==> exists|i: int|
                    0 <= i < r@.len() && kid_view(r@[i]) == k,
            forall|i: int, j: int|
                #![trigger r@[i], r@[j]]
                0 <= i < j < r@.len() ==> kid_lex_lt(kid_view(r@[i]), kid_view(r@[j])),
            forall|i: int, j: int|
                #![trigger r@[i], r@[j]]
                0 <= i < j < r@.len() ==> kid_view(r@[i]) != kid_view(r@[j]),
            forall|i: int|
                0 <= i < r@.len() ==> (#[trigger] r@[i]).0@.len() <= 29 && r@[i].1@.len() <= 32,
    {
        let start: (Blob<29>, (Blob<29>, Blob<32>)) = (
            Blob::try_from(user.bytes.as_slice()).unwrap(),
            (Blob::default(), Blob::default()),
        );
        self.inner.range(start..).take_while(
            |e| crate::types::bytes_eq(e.key().0.as_slice(), user.bytes.as_slice()),
        ).map(
            |e|
                (
                    Principal::from_bytes(e.key().1.0.as_slice().to_vec()),
                    KeyName::from_bytes(e.key().1.1.as_slice().to_vec()),
                ),
        ).collect()
    }
}

/// The durable share index, keyed by ((owner, key name), grantee).
#[verifier::external_body]
pub struct SharedKeysStore {
    inner: StableBTreeMap<((Blob<29>, Blob<32>), Blob<29>), (), VirtualMemory<DefaultMemoryImpl>>,
}

impl SharedKeysStore {
    /// Relies on ic_stable_structures::StableBTreeMap::init: over an empty
    /// region the map holds no entries; over a region holding an earlier
    /// run's map it loads that map, and nothing is promised of its contents.
    #[verifier::external_body]
    pub fn new(region: MemoryRegion) -> (s: Self)
        ensures
            region_is_empty(region) ==> set_is_empty(sk_model(s)),
    {
        SharedKeysStore { inner: StableBTreeMap::init(region.inner) }
    }

    /// Relies on ic_stable_structures::StableBTreeMap::insert: after the
    /// call the map holds an entry under the key.
    #[verifier::external_body]
    pub fn insert(&mut self, key_id: &KeyId, user: &Principal)
        requires
            user@.len() <= 29,
            key_id.0@.len() <= 29,
            key_id.1@.len() <= 32,
        ensures
            sk_model(*final(self)) == sk_model(*old(self)).insert((kid_view(*key_id), user@)),
    {
        let k: ((Blob<29>, Blob<32>), Blob<29>) = (
            (
                Blob::try_from(key_id.0.bytes.as_slice()).unwrap(),
                Blob::try_from(key_id.1.bytes.as_slice()).unwrap(),
            ),
            Blob::try_from(user.bytes.as_slice()).unwrap(),
        );
        self.inner.insert(k, ());
    }

    /// Relies on ic_stable_structures::StableBTreeMap::remove: after the
    /// call the map holds no entry under the key.
    #[verifier::external_body]
    pub fn remove(&mut self, key_id: &KeyId, user: &Principal)
        requires
            user@.len() <= 29,
            key_id.0@.len() <= 29,
            key_id.1@.len() <= 32,
        ensures
            sk_model(*final(self)) == sk_model(*old(self)).remove((kid_view(*key_id), user@)),
    {
        let k: ((Blob<29>, Blob<32>), Blob<29>) = (
            (
                Blob::try_from(key_id.0.bytes.as_slice()).unwrap(),
                Blob::try_from(key_id.1.bytes.as_slice()).unwrap(),
            ),
            Blob::try_from(user.bytes.as_slice()).unwrap(),
        );
        self.inner.remove(&k);
    }

    /// Relies on ic_stable_structures::StableBTreeMap::range together with
    /// Iterator::take_while: entries are visited in ascending key order from
    /// the lower bound (key id, minimal principal); keys sharing the first
    /// component are contiguous in that order and their grantee components
    /// ascend in the lexicographic slice order of Blob::cmp, so the scan
    /// yields exactly the grantees of `key_id`, strictly ascending.
    #[verifier::external_body]
    pub fn users_for_key(&self, key_id: &KeyId) -> (r: Vec<Principal>)
        requires
            key_id.0@.len() <= 29,
            key_id.1@.len() <= 32,
        ensures
            forall|i: int|
                0 <= i < r@.len() ==> #[trigger] sk_model(*self).contains(
                    (kid_view(*key_id), r@[i]@),
                ),
            forall|u: Seq<u8>|
                #[trigger] sk_model(*self).contains((kid_view(*key_id), u)) ==> exists|i: int|
                    0 <= i < r@.len() && r@[i]@ == u,
            forall|i: int, j: int|
                #![trigger r@[i], r@[j]]
                0 <= i < j < r@.len() ==> lex_lt(r@[i]@, r@[j]@),
            forall|i: int, j: int|
                #![trigger r@[i], r@[j]]
                0 <= i < j < r@.len() ==> r@[i]@ != r@[j]@,
            forall|i: int| 0 <= i < r@.len() ==> (#[trigger] r@[i])@.len() <= 29,
    {
        let start: ((Blob<29>, Blob<32>), Blob<29>) = (
            (
                Blob::try_from(key_id.0.bytes.as_slice()).unwrap(),
                Blob::try_from(key_id.1.bytes.as_slice()).unwrap(),
            ),
            Blob::default(),
        );
        self.inner.range(start..).take_while(
            |e| crate::types::bytes_eq(e.key().0.0.as_slice(), key_id.0.bytes.as_slice())
                && crate::types::bytes_eq(e.key().0.1.as_slice(), key_id.1.bytes.as_slice()),
        ).map(|e| Principal::from_bytes(e.key().1.as_slice().to_vec())).collect()
    }
}

/// The durable encrypted value store, keyed by ((owner, map name), map key).
#[verifier::external_body]
pub struct ValuesStore {
    inner: StableBTreeMap<((Blob<29>, Blob<32>), Blob<32>), Vec<u8>, VirtualMemory<DefaultMemoryImpl>>,
}

impl ValuesStore {
    /// Relies on ic_stable_structures::StableBTreeMap::init: over an empty
    /// region the map holds no entries; over a region holding an earlier
    /// run's map it loads that map, and nothing is promised of its contents.
    #[verifier::external_body]
    pub fn new(region: MemoryRegion) -> (s: Self)
        ensures
            region_is_empty(region) ==> map_is_empty(vm_model(s)),
    {
        ValuesStore { inner: StableBTreeMap::init(region.inner) }
    }

    /// Relies on ic_stable_structures::StableBTreeMap::get: returns the value
    /// stored under the key, if any.
    #[verifier::external_body]
    pub fn get(&self, map_id: &MapId, key: &MapKey) -> (r: Option<ByteBuf>)
        requires
            map_id.0@.len() <= 29,
            map_id.1@.len() <= 32,
            key@.len() <= 32,
        ensures
            ({
                let k = (kid_view(*map_id), key@);
                match r {
                    Some(v) => vm_model(*self).contains_key(k) && vm_model(*self)[k] == v@,
                    None => !vm_model(*self).contains_key(k),
                }
            }),
    {
        let k: ((Blob<29>, Blob<32>), Blob<32>) = (
            (
                Blob::try_from(map_id.0.bytes.as_slice()).unwrap(),
                Blob::try_from(map_id.1.bytes.as_slice()).unwrap(),
            ),
            Blob::try_from(key.bytes.as_slice()).unwrap(),
        );
        self.inner.get(&k).map(|v| ByteBuf::from(v))
    }

    /// Relies on ic_stable_structures::StableBTreeMap::insert: stores the
    /// value under the key and returns the previous value, if any.
    #[verifier::external_body]
    pub fn insert(&mut self, map_id: &MapId, key: &MapKey, value: ByteBuf) -> (prev: Option<
        ByteBuf,
    >)
        requires
            map_id.0@.len() <= 29,
            map_id.1@.len() <= 32,
            key@.len() <= 32,
        ensures
            vm_model(*final(self)) == vm_model(*old(self)).insert(
                (kid_view(*map_id), key@),
                value@,
            ),
            ({
                let k = (kid_view(*map_id), key@);
                match prev {
                    Some(p) => vm_model(*old(self)).contains_key(k) && vm_model(*old(self))[k]
                        == p@,
                    None => !vm_model(*old(self)).contains_key(k),
                }
            }),
    {
        let k: ((Blob<29>, Blob<32>), Blob<32>) = (
            (
                Blob::try_from(map_id.0.bytes.as_slice()).unwrap(),
                Blob::try_from(map_id.1.bytes.as_slice()).unwrap(),
            ),
            Blob::try_from(key.bytes.as_slice()).unwrap(),
        );
        self.inner.insert(k, value.inner).map(|v| ByteBuf::from(v))
    }

    /// Relies on ic_stable_structures::StableBTreeMap::remove: removes the
    /// entry under the key and returns its value, if any.
    #[verifier::external_body]
    pub fn remove(&mut self, map_id: &MapId, key: &MapKey) -> (prev: Option<ByteBuf>)
        requires
            map_id.0@.len() <= 29,
            map_id.1@.len() <= 32,
            key@.len() <= 32,
        ensures
            vm_model(*final(self)) == vm_model(*old(self)).remove((kid_view(*map_id), key@)),
            ({
                let k = (kid_view(*map_id), key@);
                match prev {
                    Some(p) => vm_model(*old(self)).contains_key(k) && vm_model(*old(self))[k]
                        == p@,
                    None => !vm_model(*old(self)).contains_key(k),
                }
            }),
    {
        let k: ((Blob<29>, Blob<32>), Blob<32>) = (
            (
                Blob::try_from(map_id.0.bytes.as_slice()).unwrap(),
                Blob::try_from(map_id.1.bytes.as_slice()).unwrap(),
            ),
            Blob::try_from(key.bytes.as_slice()).unwrap(),
        );
        self.inner.remove(&k).map(|v| ByteBuf::from(v))
    }

    /// Relies on ic_stable_structures::StableBTreeMap::range together with
    /// Iterator::take_while: entries are visited in ascending key order from
    /// the lower bound (map id, minimal map key); keys sharing the map id are
    /// contiguous and their map-key components ascend in the lexicographic
    /// slice order of Blob::cmp, so the scan yields exactly the entries of
    /// the map, sorted strictly by map key.
    #[verifier::external_body]
    pub fn entries_for_map(&self, map_id: &MapId) -> (r: Vec<(MapKey, ByteBuf)>)
        requires
            map_id.0@.len() <= 29,
            map_id.1@.len() <= 32,
        ensures
            forall|i: int|
                0 <= i < r@.len() ==> #[trigger] vm_model(*self).contains_key(
                    (kid_view(*map_id), r@[i].0@),
                ) && vm_model(*self)[(kid_view(*map_id), r@[i].0@)] == r@[i].1@,
            forall|k: Seq<u8>|
                #[trigger] vm_model(*self).dom().contains((kid_view(*map_id), k)) ==> exists|
                    i: int,
                |
                    0 <= i < r@.len() && r@[i].0@ == k,
            forall|i: int, j: int|
                #![trigger r@[i], r@[j]]
                0 <= i < j < r@.len() ==> lex_lt(r@[i].0@, r@[j].0@),
            forall|i: int| 0 <= i < r@.len() ==> (#[trigger] r@[i]).0@.len() <= 32,
    {
        let start: ((Blob<29>, Blob<32>), Blob<32>) = (
            (
                Blob::try_from(map_id.0.bytes.as_slice()).unwrap(),
                Blob::try_from(map_id.1.bytes.as_slice()).unwrap(),
            ),
            Blob::default(),
        );
        self.inner.range(start..).take_while(
            |e| crate::types::bytes_eq(e.key().0.0.as_slice(), map_id.0.bytes.as_slice())
                && crate::types::bytes_eq(e.key().0.1.as_slice(), map_id.1.bytes.as_slice()),
        ).map(
            |e| (KeyName::from_bytes(e.key().1.as_slice().to_vec()), ByteBuf::from(e.value())),
        ).collect()
    }

    /// Relies on ic_stable_structures::StableBTreeMap::range together with
    /// Iterator::take_while: entries are visited in ascending key order from
    /// the lower bound ((owner, minimal name), minimal key), and keys sharing
    /// the owner component are contiguous in that order, so the scan yields
    /// the map name of every entry of every map owned by `owner` (names
    /// repeat once per entry).
    #[verifier::external_body]
    pub fn names_for_owner(&self, owner: &Principal) -> (r: Vec<KeyName>)
        requires
            owner@.len() <= 29,
        ensures
            forall|i: int|
                0 <= i < r@.len() ==> vm_has_name(vm_model(*self), owner@, (#[trigger] r@[i])@),
            forall|k: (KeyIdV, Seq<u8>)|
                #[trigger] vm_model(*self).dom().contains(k) && k.0.0 == owner@ ==> exists|i: int|
                    0 <= i < r@.len() && r@[i]@ == k.0.1,
            forall|i: int| 0 <= i < r@.len() ==> (#[trigger] r@[i])@.len() <= 32,
    {
        let start: ((Blob<29>, Blob<32>), Blob<32>) = (
            (Blob::try_from(owner.bytes.as_slice()).unwrap(), Blob::default()),
            Blob::default(),
        );
        self.inner.range(start..).take_while(
            |e| crate::types::bytes_eq(e.key().0.0.as_slice(), owner.bytes.as_slice()),
        ).map(|e| KeyName::from_bytes(e.key().0.1.as_slice().to_vec())).collect()
    }
}

} // verus!
