//! The encrypted value store, layered on the key manager: a durable mapping
//! from (map id, map key) to encrypted bytes, where the map id reuses the
//! key-id authorization machinery.
//!
//! Reads are gated on read access and fail with the uniform "unauthorized".
//! Writes are gated in two steps: a caller who would not even pass the read
//! gate sees the uniform "unauthorized", while a caller whose grant can read
//! but not write sees "unauthorized user".

use vstd::prelude::*;

use crate::key_manager::{key_id_wf, read_access, KeyManager};
use crate::stores::{
    kid_view, map_is_empty, region_is_empty, set_is_empty, vm_has_name, vm_has_value, vm_model,
    KeyIdV, MemoryRegion, ValuesStore,
};
use crate::types::{
    bytes_eq, AccessControl, AccessRights, EncryptedMapValue, KeyName, MapId, MapKey, MapName,
    Principal,
};
use vstd::string::StringSliceAdditionalSpecFns;

verus! {

/// The keys of the entries a map currently holds.
pub open spec fn map_entries_of(m: Map<(KeyIdV, Seq<u8>), Seq<u8>>, mid: KeyIdV) -> Set<
    (KeyIdV, Seq<u8>),
> {
    Set::new(|k: (KeyIdV, Seq<u8>)| m.dom().contains(k) && k.0 == mid)
}

/// Whether the list of removed values holds `v`.
pub open spec fn holds_value(vals: Seq<EncryptedMapValue>, v: Seq<u8>) -> bool {
    exists|i: int| 0 <= i < vals.len() && vals[i]@ == v
}

/// Whether the list `v` holds a name whose bytes are `n`.
pub open spec fn has_name(v: Seq<KeyName>, n: Seq<u8>) -> bool {
    exists|i: int| 0 <= i < v.len() && v[i]@ == n
}

fn contains_name(v: &Vec<KeyName>, n: &KeyName) -> (b: bool)
    ensures
        b == has_name(v@, n@),
{
    let mut i: usize = 0;
    while i < v.len()
        invariant
            i <= v@.len(),
            forall|j: int| 0 <= j < i ==> (#[trigger] v@[j])@ != n@,
        decreases v@.len() - i,
    {
        if bytes_eq(v[i].bytes().as_slice(), n.bytes().as_slice()) {
            return true;
        }
        i += 1;
    }
    false
}

/// Drops duplicate names, keeping the first occurrence of each.
#[verifier::loop_isolation(false)]
fn dedup_names(all: &Vec<KeyName>) -> (out: Vec<KeyName>)
    ensures
        forall|a: int, b: int|
            #![trigger out@[a], out@[b]]
            0 <= a < b < out@.len() ==> out@[a]@ != out@[b]@,
        forall|j: int| 0 <= j < all@.len() ==> has_name(out@, (#[trigger] all@[j])@),
        forall|a: int| 0 <= a < out@.len() ==> has_name(all@, (#[trigger] out@[a])@),
{
    let mut out: Vec<KeyName> = Vec::new();
    let mut i: usize = 0;
    while i < all.len()
        invariant
            i <= all@.len(),
            forall|a: int, b: int|
                #![trigger out@[a], out@[b]]
                0 <= a < b < out@.len() ==> out@[a]@ != out@[b]@,
            forall|j: int| 0 <= j < i ==> has_name(out@, (#[trigger] all@[j])@),
            forall|a: int| 0 <= a < out@.len() ==> has_name(all@, (#[trigger] out@[a])@),
        decreases all@.len() - i,
    {
        let ghost prev = out@;
        if !contains_name(&out, &all[i]) {
            out.push(all[i].clone());
            proof {
                assert(out@[out@.len() - 1]@ == all@[i as int]@);
                assert(has_name(all@, out@[out@.len() - 1]@));
                assert forall|j: int| 0 <= j < i + 1 implies has_name(
                    out@,
                    (#[trigger] all@[j])@,
                ) by {
                    if j < i {
                        let idx = choose|idx: int|
                            0 <= idx < prev.len() && prev[idx]@ == all@[j]@;
                        assert(out@[idx]@ == all@[j]@);
                    } else {
                        assert(out@[out@.len() - 1]@ == all@[j]@);
                    }
                }
                assert forall|a: int, b: int|
                    #![trigger out@[a], out@[b]]
                    0 <= a < b < out@.len() implies out@[a]@ != out@[b]@ by {
                    if b == out@.len() - 1 {
                        assert(!has_name(prev, all@[i as int]@));
                        assert(prev[a]@ != all@[i as int]@);
                    } else {
                        assert(out@[a]@ == prev[a]@ && out@[b]@ == prev[b]@);
                    }
                }
            }
        } else {
            proof {
                assert(has_name(out@, all@[i as int]@));
            }
        }
        i += 1;
    }
    out
}

/// The encrypted value broker: the key manager that owns the authorization
/// state, and the durable store of encrypted values.
pub struct EncryptedMaps {
    pub key_manager: KeyManager,
    pub mapkey_vals: ValuesStore,
}

impl EncryptedMaps {
    /// The value store: (map id, map key) -> value bytes.
    pub open spec fn vm(self) -> Map<(KeyIdV, Seq<u8>), Seq<u8>> {
        vm_model(self.mapkey_vals)
    }

    pub open spec fn wf(self) -> bool {
        self.key_manager.wf()
    }

    /// Sets up the broker over the given memory regions. Over empty regions
    /// everything starts blank with the given domain separator; over regions
    /// surviving a restart the stores load what the previous run left.
    pub fn init(
        domain_separator: &str,
        memory_encrypted_maps: MemoryRegion,
        memory_domain_separator: MemoryRegion,
        memory_access_control: MemoryRegion,
        memory_shared_keys: MemoryRegion,
    ) -> (em: EncryptedMaps)
        ensures
            region_is_empty(memory_access_control) && region_is_empty(memory_shared_keys)
                ==> em.wf() && map_is_empty(em.key_manager.ac()) && set_is_empty(
                em.key_manager.shared(),
            ),
            region_is_empty(memory_encrypted_maps) ==> map_is_empty(em.vm()),
            region_is_empty(memory_domain_separator) ==> em.key_manager.ds()
                == domain_separator.spec_bytes(),
    {
        EncryptedMaps {
            key_manager: KeyManager::init(
                domain_separator,
                memory_domain_separator,
                memory_access_control,
                memory_shared_keys,
            ),
            mapkey_vals: ValuesStore::new(memory_encrypted_maps),
        }
    }

    /// The two-step write gate: first the read gate (uniform denial), then
    /// the write capability of the rights it produced.
    fn check_user_can_write(&self, caller: &Principal, map_id: &MapId) -> (r: Result<
        AccessRights,
        String,
    >)
        requires
            caller.wf(),
            key_id_wf(*map_id),
        ensures
            match r {
                Ok(a) => read_access(self.key_manager.ac(), caller@, kid_view(*map_id)) == Some(a)
                    && a.spec_can_write(),
                Err(e) => match read_access(self.key_manager.ac(), caller@, kid_view(*map_id)) {
                    None => e@ == "unauthorized"@,
                    Some(a) => !a.spec_can_write() && e@ == "unauthorized user"@,
                },
            },
    {
        match self.key_manager.ensure_user_can_read(caller, map_id) {
            Err(e) => Err(e),
            Ok(a) => if a.can_write() {
                Ok(a)
            } else {
                Err("unauthorized user".to_owned())
            },
        }
    }

    /// Stores a value under (map id, map key), overwriting and returning the
    /// previous value if one was stored. Requires write access.
    pub fn insert_encrypted_value(
        &mut self,
        caller: Principal,
        map_id: MapId,
        key: MapKey,
        value: EncryptedMapValue,
    ) -> (r: Result<Option<EncryptedMapValue>, String>)
        requires
            old(self).wf(),
            caller.wf(),
            key_id_wf(map_id),
            key.wf(),
        ensures
            final(self).wf(),
            final(self).key_manager.ac() == old(self).key_manager.ac(),
            final(self).key_manager.shared() == old(self).key_manager.shared(),
            final(self).key_manager.ds() == old(self).key_manager.ds(),
            match r {
                Ok(prev) => {
                    &&& match read_access(
                        old(self).key_manager.ac(),
                        caller@,
                        kid_view(map_id),
                    ) {
                        Some(a) => a.spec_can_write(),
                        None => false,
                    }
                    &&& final(self).vm() == old(self).vm().insert(
                        (kid_view(map_id), key@),
                        value@,
                    )
                    &&& match prev {
                        Some(p) => old(self).vm().contains_key((kid_view(map_id), key@)) && p@
                            == old(self).vm()[(kid_view(map_id), key@)],
                        None => !old(self).vm().contains_key((kid_view(map_id), key@)),
                    }
                },
                Err(e) => {
                    &&& final(self).vm() == old(self).vm()
                    &&& match read_access(old(self).key_manager.ac(), caller@, kid_view(map_id)) {
                        None => e@ == "unauthorized"@,
                        Some(a) => !a.spec_can_write() && e@ == "unauthorized user"@,
                    }
                },
            },
    {
        match self.check_user_can_write(&caller, &map_id) {
            Err(e) => {
                return Err(e);
            },
            Ok(_) => {},
        }
        Ok(self.mapkey_vals.insert(&map_id, &key, value))
    }

    /// The value stored under (map id, map key), if any. Requires read
    /// access.
    pub fn get_encrypted_value(&self, caller: Principal, map_id: MapId, key: MapKey) -> (r: Result<
        Option<EncryptedMapValue>,
        String,
    >)
        requires
            caller.wf(),
            key_id_wf(map_id),
            key.wf(),
        ensures
            match r {
                Ok(o) => {
                    &&& read_access(self.key_manager.ac(), caller@, kid_view(map_id)) is Some
                    &&& match o {
                        Some(v) => self.vm().contains_key((kid_view(map_id), key@)) && v@
                            == self.vm()[(kid_view(map_id), key@)],
                        None => !self.vm().contains_key((kid_view(map_id), key@)),
                    }
                },
                Err(e) => read_access(self.key_manager.ac(), caller@, kid_view(map_id)) is None
                    && e@ == "unauthorized"@,
            },
    {
        match self.key_manager.ensure_user_can_read(&caller, &map_id) {
            Err(e) => {
                return Err(e);
            },
            Ok(_) => {},
        }
        Ok(self.mapkey_vals.get(&map_id, &key))
    }

    /// Removes the value stored under (map id, map key) and returns it, if
    /// any. Requires write access.
    pub fn remove_encrypted_value(&mut self, caller: Principal, map_id: MapId, key: MapKey) -> (r:
        Result<Option<EncryptedMapValue>, String>)
        requires
            old(self).wf(),
            caller.wf(),
            key_id_wf(map_id),
            key.wf(),
        ensures
            final(self).wf(),
            final(self).key_manager.ac() == old(self).key_manager.ac(),
            final(self).key_manager.shared() == old(self).key_manager.shared(),
            final(self).key_manager.ds() == old(self).key_manager.ds(),
            match r {
                Ok(prev) => {
                    &&& match read_access(
                        old(self).key_manager.ac(),
                        caller@,
                        kid_view(map_id),
                    ) {
                        Some(a) => a.spec_can_write(),
                        None => false,
                    }
                    &&& final(self).vm() == old(self).vm().remove((kid_view(map_id), key@))
                    &&& match prev {
                        Some(p) => old(self).vm().contains_key((kid_view(map_id), key@)) && p@
                            == old(self).vm()[(kid_view(map_id), key@)],
                        None => !old(self).vm().contains_key((kid_view(map_id), key@)),
                    }
                },
                Err(e) => {
                    &&& final(self).vm() == old(self).vm()
                    &&& match read_access(old(self).key_manager.ac(), caller@, kid_view(map_id)) {
                        None => e@ == "unauthorized"@,
                        Some(a) => !a.spec_can_write() && e@ == "unauthorized user"@,
                    }
                },
            },
    {
        match self.check_user_can_write(&caller, &map_id) {
            Err(e) => {
                return Err(e);
            },
            Ok(_) => {},
        }
        Ok(self.mapkey_vals.remove(&map_id, &key))
    }

    /// Removes every entry of the map and returns the removed values; an
    /// already-empty map yields the empty list, never an error. Requires
    /// write access.
    #[verifier::loop_isolation(false)]
    pub fn remove_map_values(&mut self, caller: Principal, map_id: MapId) -> (r: Result<
        Vec<EncryptedMapValue>,
        String,
    >)
        requires
            old(self).wf(),
            caller.wf(),
            key_id_wf(map_id),
        ensures
            final(self).wf(),
            final(self).key_manager.ac() == old(self).key_manager.ac(),
            final(self).key_manager.shared() == old(self).key_manager.shared(),
            final(self).key_manager.ds() == old(self).key_manager.ds(),
            match r {
                Ok(vals) => {
                    &&& match read_access(
                        old(self).key_manager.ac(),
                        caller@,
                        kid_view(map_id),
                    ) {
                        Some(a) => a.spec_can_write(),
                        None => false,
                    }
                    &&& forall|k: (KeyIdV, Seq<u8>)|
                        #[trigger] final(self).vm().contains_key(k) <==> (old(
                            self,
                        ).vm().contains_key(k) && k.0 != kid_view(map_id))
                    &&& forall|k: (KeyIdV, Seq<u8>)|
                        #[trigger] final(self).vm().contains_key(k) ==> final(self).vm()[k] == old(
                            self,
                        ).vm()[k]
                    &&& forall|i: int|
                        0 <= i < vals@.len() ==> vm_has_value(
                            old(self).vm(),
                            kid_view(map_id),
                            (#[trigger] vals@[i])@,
                        )
                    &&& forall|mk: Seq<u8>|
                        #[trigger] old(self).vm().dom().contains((kid_view(map_id), mk))
                            ==> holds_value(vals@, old(self).vm()[(kid_view(map_id), mk)])
                    &&& map_entries_of(old(self).vm(), kid_view(map_id)).finite()
                    &&& vals@.len() == map_entries_of(old(self).vm(), kid_view(map_id)).len()
                },
                Err(e) => {
                    &&& final(self).vm() == old(self).vm()
                    &&& match read_access(old(self).key_manager.ac(), caller@, kid_view(map_id)) {
                        None => e@ == "unauthorized"@,
                        Some(a) => !a.spec_can_write() && e@ == "unauthorized user"@,
                    }
                },
            },
    {
        match self.check_user_can_write(&caller, &map_id) {
            Err(e) => {
                return Err(e);
            },
            Ok(_) => {},
        }
        let entries = self.mapkey_vals.entries_for_map(&map_id);
        let mut vals: Vec<EncryptedMapValue> = Vec::new();
        let mut i: usize = 0;
        while i < entries.len()
            invariant
                self.key_manager == old(self).key_manager,
                i <= entries@.len(),
                vals@.len() == i,
                forall|j: int| 0 <= j < i ==> (#[trigger] vals@[j])@ == entries@[j].1@,
                forall|k: (KeyIdV, Seq<u8>)|
                    #[trigger] vm_model(self.mapkey_vals).contains_key(k) <==> (vm_model(
                        old(self).mapkey_vals,
                    ).contains_key(k) && !(exists|j: int|
                        0 <= j < i && k == (kid_view(map_id), entries@[j].0@))),
                forall|k: (KeyIdV, Seq<u8>)|
                    #[trigger] vm_model(self.mapkey_vals).contains_key(k) ==> vm_model(
                        self.mapkey_vals,
                    )[k] == vm_model(old(self).mapkey_vals)[k],
            decreases entries@.len() - i,
        {
            self.mapkey_vals.remove(&map_id, &entries[i].0);
            vals.push(entries[i].1.clone());
            i += 1;
        }
        proof {
            assert forall|k: (KeyIdV, Seq<u8>)| #[trigger]
                vm_model(self.mapkey_vals).contains_key(k) <==> (vm_model(
                old(self).mapkey_vals,
            ).contains_key(k) && k.0 != kid_view(map_id)) by {
                if vm_model(old(self).mapkey_vals).contains_key(k) && k.0 == kid_view(map_id) {
                    assert(vm_model(old(self).mapkey_vals).dom().contains(
                        (kid_view(map_id), k.1),
                    ));
                }
            }
            assert forall|mk: Seq<u8>| #[trigger]
                old(self).vm().dom().contains((kid_view(map_id), mk)) implies holds_value(
                vals@,
                old(self).vm()[(kid_view(map_id), mk)],
            ) by {
                let j = choose|j: int| 0 <= j < entries@.len() && entries@[j].0@ == mk;
                assert(vals@[j]@ == entries@[j].1@);
                assert(old(self).vm()[(kid_view(map_id), mk)] == entries@[j].1@);
            }
            assert forall|i2: int| 0 <= i2 < vals@.len() implies vm_has_value(
                old(self).vm(),
                kid_view(map_id),
                (#[trigger] vals@[i2])@,
            ) by {
                assert(old(self).vm().dom().contains((kid_view(map_id), entries@[i2].0@))
                    && old(self).vm()[(kid_view(map_id), entries@[i2].0@)] == (vals@[i2])@);
            }
            let mid_v = kid_view(map_id);
            let eseq = Seq::new(entries@.len(), |j: int| (mid_v, entries@[j].0@));
            assert(eseq.no_duplicates()) by {
                assert forall|a: int, b: int|
                    0 <= a < eseq.len() && 0 <= b < eseq.len() && a != b implies eseq[a]
                    != eseq[b] by {
                    let x = if a < b {
                        a
                    } else {
                        b
                    };
                    let y = if a < b {
                        b
                    } else {
                        a
                    };
                    assert(crate::stores::lex_lt(entries@[x].0@, entries@[y].0@));
                    if entries@[x].0@ == entries@[y].0@ {
                        crate::stores::lemma_lex_lt_irreflexive(entries@[x].0@);
                    }
                }
            }
            assert(eseq.to_set() =~= map_entries_of(old(self).vm(), mid_v)) by {
                assert forall|k: (KeyIdV, Seq<u8>)|
                    eseq.to_set().contains(k) implies map_entries_of(
                    old(self).vm(),
                    mid_v,
                ).contains(k) by {
                    let j = choose|j: int| 0 <= j < eseq.len() && eseq[j] == k;
                    assert(old(self).vm().dom().contains((mid_v, entries@[j].0@)));
                }
                assert forall|k: (KeyIdV, Seq<u8>)|
                    map_entries_of(old(self).vm(), mid_v).contains(k) implies eseq
                    .to_set()
                    .contains(k) by {
                    assert(old(self).vm().dom().contains((mid_v, k.1)));
                    let j = choose|j: int|
                        0 <= j < entries@.len() && entries@[j].0@ == k.1;
                    assert(eseq[j] == k);
                    assert(eseq.contains(k));
                }
            }
            eseq.unique_seq_to_set();
            vstd::seq_lib::seq_to_set_is_finite::<(KeyIdV, Seq<u8>)>(eseq);
            assert(eseq.to_set() == map_entries_of(old(self).vm(), mid_v));
        }
        Ok(vals)
    }

    /// Every (map key, value) pair of the map, sorted by map key. Requires
    /// read access.
    pub fn get_encrypted_values_for_map(&self, caller: Principal, map_id: MapId) -> (r: Result<
        Vec<(MapKey, EncryptedMapValue)>,
        String,
    >)
        requires
            caller.wf(),
            key_id_wf(map_id),
        ensures
            match r {
                Ok(v) => {
                    &&& read_access(self.key_manager.ac(), caller@, kid_view(map_id)) is Some
                    &&& forall|i: int|
                        0 <= i < v@.len() ==> #[trigger] self.vm().contains_key(
                            (kid_view(map_id), v@[i].0@),
                        ) && self.vm()[(kid_view(map_id), v@[i].0@)] == v@[i].1@
                    &&& forall|k: Seq<u8>|
                        #[trigger] self.vm().dom().contains((kid_view(map_id), k)) ==> exists|
                            i: int,
                        |
                            0 <= i < v@.len() && v@[i].0@ == k
                    &&& forall|i: int, j: int|
                        #![trigger v@[i], v@[j]]
                        0 <= i < j < v@.len() ==> crate::stores::lex_lt(v@[i].0@, v@[j].0@)
                },
                Err(e) => read_access(self.key_manager.ac(), caller@, kid_view(map_id)) is None
                    && e@ == "unauthorized"@,
            },
    {
        match self.key_manager.ensure_user_can_read(&caller, &map_id) {
            Err(e) => {
                return Err(e);
            },
            Ok(_) => {},
        }
        Ok(self.mapkey_vals.entries_for_map(&map_id))
    }

    /// The name of every map owned by the caller that currently holds at
    /// least one entry, each once. Owners enumerate only their own maps, so
    /// no authorization table lookup is involved.
    #[verifier::loop_isolation(false)]
    #[verifier::rlimit(30)]
    pub fn get_owned_non_empty_map_names(&self, caller: Principal) -> (r: Result<
        Vec<MapName>,
        String,
    >)
        requires
            caller.wf(),
        ensures
            match r {
                Ok(names) => {
                    &&& forall|i: int, j: int|
                        #![trigger names@[i], names@[j]]
                        0 <= i < j < names@.len() ==> names@[i]@ != names@[j]@
                    &&& forall|i: int|
                        0 <= i < names@.len() ==> vm_has_name(
                            self.vm(),
                            caller@,
                            (#[trigger] names@[i])@,
                        )
                    &&& forall|k: (KeyIdV, Seq<u8>)|
                        #[trigger] self.vm().dom().contains(k) && k.0.0 == caller@ ==> has_name(
                            names@,
                            k.0.1,
                        )
                },
                Err(_) => false,
            },
    {
        let all = self.mapkey_vals.names_for_owner(&caller);
        let out = dedup_names(&all);
        proof {
            assert forall|a: int| 0 <= a < out@.len() implies vm_has_name(
                self.vm(),
                caller@,
                (#[trigger] out@[a])@,
            ) by {
                let j = choose|j: int| 0 <= j < all@.len() && all@[j]@ == out@[a]@;
                assert(vm_has_name(self.vm(), caller@, all@[j]@));
            }
            assert forall|k: (KeyIdV, Seq<u8>)| #[trigger]
                self.vm().dom().contains(k) && k.0.0 == caller@ implies has_name(
                out@,
                k.0.1,
            ) by {
                let j = choose|j: int| 0 <= j < all@.len() && all@[j]@ == k.0.1;
                assert(has_name(out@, all@[j]@));
            }
        }
        Ok(out)
    }

    /// Grants or overwrites a user's level on a map, through the key
    /// manager; the value store is untouched.
    pub fn set_user_rights(
        &mut self,
        caller: Principal,
        map_id: MapId,
        user: Principal,
        access_rights: AccessRights,
    ) -> (r: Result<Option<AccessRights>, String>)
        requires
            old(self).wf(),
            caller.wf(),
            user.wf(),
            key_id_wf(map_id),
        ensures
            final(self).wf(),
            final(self).vm() == old(self).vm(),
            final(self).key_manager.ds() == old(self).key_manager.ds(),
            match r {
                Ok(prev) => {
                    &&& crate::key_manager::manage_access(
                        old(self).key_manager.ac(),
                        caller@,
                        kid_view(map_id),
                    ) is Some
                    &&& user@ != map_id.0@
                    &&& final(self).key_manager.ac() == old(self).key_manager.ac().insert(
                        (user@, kid_view(map_id)),
                        access_rights.spec_repr(),
                    )
                    &&& final(self).key_manager.shared() == old(self).key_manager.shared().insert(
                        (kid_view(map_id), user@),
                    )
                    &&& prev == crate::key_manager::stored_rights(
                        old(self).key_manager.ac(),
                        user@,
                        kid_view(map_id),
                    )
                },
                Err(e) => {
                    &&& final(self).key_manager.ac() == old(self).key_manager.ac()
                    &&& final(self).key_manager.shared() == old(self).key_manager.shared()
                    &&& if crate::key_manager::manage_access(
                        old(self).key_manager.ac(),
                        caller@,
                        kid_view(map_id),
                    ) is None {
                        e@ == "unauthorized"@
                    } else {
                        user@ == map_id.0@ && e@ == "cannot change key owner's user rights"@
                    }
                },
            },
    {
        self.key_manager.set_user_rights(&caller, &map_id, &user, access_rights)
    }

    /// Revokes a user's access to a map, through the key manager; the value
    /// store is untouched.
    pub fn remove_user(&mut self, caller: Principal, map_id: MapId, user: Principal) -> (r: Result<
        Option<AccessRights>,
        String,
    >)
        requires
            old(self).wf(),
            caller.wf(),
            user.wf(),
            key_id_wf(map_id),
        ensures
            final(self).wf(),
            final(self).vm() == old(self).vm(),
            final(self).key_manager.ds() == old(self).key_manager.ds(),
            match r {
                Ok(prev) => {
                    &&& crate::key_manager::manage_access(
                        old(self).key_manager.ac(),
                        caller@,
                        kid_view(map_id),
                    ) is Some
                    &&& !(caller@ == map_id.0@ && caller@ == user@)
                    &&& final(self).key_manager.ac() == old(self).key_manager.ac().remove(
                        (user@, kid_view(map_id)),
                    )
                    &&& final(self).key_manager.shared() == old(self).key_manager.shared().remove(
                        (kid_view(map_id), user@),
                    )
                    &&& prev == crate::key_manager::stored_rights(
                        old(self).key_manager.ac(),
                        user@,
                        kid_view(map_id),
                    )
                },
                Err(e) => {
                    &&& final(self).key_manager.ac() == old(self).key_manager.ac()
                    &&& final(self).key_manager.shared() == old(self).key_manager.shared()
                    &&& if crate::key_manager::manage_access(
                        old(self).key_manager.ac(),
                        caller@,
                        kid_view(map_id),
                    ) is None {
                        e@ == "unauthorized"@
                    } else {
                        caller@ == map_id.0@ && caller@ == user@ && e@ == "cannot remove key owner"@
                    }
                },
            },
    {
        self.key_manager.remove_user(&caller, &map_id, &user)
    }

    /// The rights a given user holds on a map, through the key manager.
    pub fn get_user_rights(&self, caller: Principal, map_id: MapId, user: Principal) -> (r: Result<
        Option<AccessRights>,
        String,
    >)
        requires
            caller.wf(),
            user.wf(),
            key_id_wf(map_id),
        ensures
            match r {
                Ok(o) => crate::key_manager::get_rights_access(
                    self.key_manager.ac(),
                    caller@,
                    kid_view(map_id),
                ) is Some && o == read_access(self.key_manager.ac(), user@, kid_view(map_id)),
                Err(e) => crate::key_manager::get_rights_access(
                    self.key_manager.ac(),
                    caller@,
                    kid_view(map_id),
                ) is None && e@ == "unauthorized"@,
            },
    {
        self.key_manager.get_user_rights(&caller, &map_id, &user)
    }
}

} // verus!
