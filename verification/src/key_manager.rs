//! The key manager: a durable authorization table from (grantee, key id) to
//! access rights, a share index from (key id, grantee) back to the table,
//! and the checks that gate every operation on them.
//!
//! The owner of a key id implicitly holds the maximal rights; owner entries
//! are never stored, and a caller that fails a check learns only
//! "unauthorized", never whether an entry exists.

use vstd::prelude::*;

use crate::stores::{
    ac_model, ds_model, kid_lex_lt, kid_view, lex_lt, map_is_empty, region_is_empty, set_is_empty,
    sk_model, AccessControlStore, DomainSeparatorStore, KeyIdV, MemoryRegion, SharedKeysStore,
};
use crate::types::{bytes_eq, AccessControl, AccessRights, KeyId, Principal, TransportKey};
use vstd::pervasive::unreached;
use vstd::string::{StrSliceExecFns, StringSliceAdditionalSpecFns};

verus! {

/// Key ids whose components fit the fixed-size storage slots.
pub open spec fn key_id_wf(k: KeyId) -> bool {
    k.0@.len() <= 29 && k.1@.len() <= 32
}

/// The rights stored in the authorization table for (user, key), decoded.
pub open spec fn stored_rights(
    ac: Map<(Seq<u8>, KeyIdV), u8>,
    user: Seq<u8>,
    key: KeyIdV,
) -> Option<AccessRights> {
    if ac.contains_key((user, key)) {
        AccessRights::spec_from_repr(ac[(user, key)])
    } else {
        None
    }
}

/// The rights under which `user` may read `key`: the owner implicitly holds
/// the maximal level; anyone else needs a stored entry that can read.
pub open spec fn read_access(ac: Map<(Seq<u8>, KeyIdV), u8>, user: Seq<u8>, key: KeyIdV) -> Option<
    AccessRights,
> {
    if user == key.0 {
        Some(AccessRights::ReadWriteManage)
    } else {
        match stored_rights(ac, user, key) {
            Some(a) => if a.spec_can_read() {
                Some(a)
            } else {
                None
            },
            None => None,
        }
    }
}

/// The rights under which `user` may write `key`.
pub open spec fn write_access(ac: Map<(Seq<u8>, KeyIdV), u8>, user: Seq<u8>, key: KeyIdV) -> Option<
    AccessRights,
> {
    if user == key.0 {
        Some(AccessRights::ReadWriteManage)
    } else {
        match stored_rights(ac, user, key) {
            Some(a) => if a.spec_can_write() {
                Some(a)
            } else {
                None
            },
            None => None,
        }
    }
}

/// The rights under which `user` may inspect the sharing of `key`.
pub open spec fn get_rights_access(
    ac: Map<(Seq<u8>, KeyIdV), u8>,
    user: Seq<u8>,
    key: KeyIdV,
) -> Option<AccessRights> {
    if user == key.0 {
        Some(AccessRights::ReadWriteManage)
    } else {
        match stored_rights(ac, user, key) {
            Some(a) => if a.spec_can_get_user_rights() {
                Some(a)
            } else {
                None
            },
            None => None,
        }
    }
}

/// The rights under which `user` may change the sharing of `key`.
pub open spec fn manage_access(
    ac: Map<(Seq<u8>, KeyIdV), u8>,
    user: Seq<u8>,
    key: KeyIdV,
) -> Option<AccessRights> {
    if user == key.0 {
        Some(AccessRights::ReadWriteManage)
    } else {
        match stored_rights(ac, user, key) {
            Some(a) => if a.spec_can_set_user_rights() {
                Some(a)
            } else {
                None
            },
            None => None,
        }
    }
}

/// No authorization-table entry names the key's owner as grantee: the
/// owner's rights are implicit and maximal, never stored.
pub open spec fn no_owner_entries(ac: Map<(Seq<u8>, KeyIdV), u8>) -> bool {
    forall|e: (Seq<u8>, KeyIdV)| #[trigger] ac.contains_key(e) ==> e.0 != e.1.0
}

/// The derivation input for a key id: the owner bytes, length-prefixed, then
/// the raw key name, so distinct (owner, name) pairs never collide.
pub open spec fn spec_vetkd_input(owner: Seq<u8>, name: Seq<u8>) -> Seq<u8> {
    seq![owner.len() as u8] + owner + name
}

pub(crate) fn unauthorized_error() -> (e: String)
    ensures
        e@ == "unauthorized"@,
{
    "unauthorized".to_owned()
}

/// Decode a stored rights byte that the table invariant guarantees valid.
fn rights_from_stored(v: u8) -> (a: AccessRights)
    requires
        AccessRights::spec_from_repr(v) is Some,
    ensures
        AccessRights::spec_from_repr(v) == Some(a),
{
    match AccessRights::from_repr(v) {
        Some(a) => a,
        None => unreached(),
    }
}

/// The access-control broker: the domain separator bound to every
/// derivation request, the authorization table and the share index.
pub struct KeyManager {
    pub domain_separator: DomainSeparatorStore,
    pub access_control: AccessControlStore,
    pub shared_keys: SharedKeysStore,
}

/// A fully prepared derivation request: everything the external vetKD
/// service needs, computed after the authorization check has passed.
pub struct EncryptedVetKeyRequest {
    pub input: Vec<u8>,
    pub context: Vec<u8>,
    pub transport_public_key: Vec<u8>,
}

impl KeyManager {
    /// The authorization table: (grantee, key id) -> stored level byte.
    pub open spec fn ac(self) -> Map<(Seq<u8>, KeyIdV), u8> {
        ac_model(self.access_control)
    }

    /// The share index: the set of (key id, grantee) pairs.
    pub open spec fn shared(self) -> Set<(KeyIdV, Seq<u8>)> {
        sk_model(self.shared_keys)
    }

    /// The domain separator bytes.
    pub open spec fn ds(self) -> Seq<u8> {
        ds_model(self.domain_separator)
    }

    /// Structural invariant: table and index are bijective, every stored
    /// byte decodes to an access level, and no entry names a key's owner as
    /// grantee.
    pub open spec fn wf(self) -> bool {
        &&& forall|k: KeyIdV, u: Seq<u8>|
            #[trigger] self.shared().contains((k, u)) ==> self.ac().contains_key((u, k))
        &&& forall|u: Seq<u8>, k: KeyIdV|
            #[trigger] self.ac().contains_key((u, k)) ==> self.shared().contains((k, u))
        &&& forall|e: (Seq<u8>, KeyIdV)|
            #[trigger] self.ac().contains_key(e) ==> AccessRights::spec_from_repr(self.ac()[e])
                is Some
        &&& no_owner_entries(self.ac())
    }

    /// Sets up the broker over the given memory regions. Over empty regions
    /// everything starts blank with the given domain separator; over regions
    /// surviving a restart the stores load what the previous run left, and
    /// nothing can be promised of that state here.
    pub fn init(
        domain_separator: &str,
        memory_domain_separator: MemoryRegion,
        memory_access_control: MemoryRegion,
        memory_shared_keys: MemoryRegion,
    ) -> (km: KeyManager)
        ensures
            region_is_empty(memory_access_control) && region_is_empty(memory_shared_keys)
                ==> km.wf() && map_is_empty(km.ac()) && set_is_empty(km.shared()),
            region_is_empty(memory_domain_separator) ==> km.ds()
                == domain_separator.spec_bytes(),
    {
        let ds_bytes = domain_separator.as_bytes_vec();
        KeyManager {
            domain_separator: DomainSeparatorStore::new(memory_domain_separator, ds_bytes),
            access_control: AccessControlStore::new(memory_access_control),
            shared_keys: SharedKeysStore::new(memory_shared_keys),
        }
    }

    /// Grants read access if the user is the owner or holds a stored level
    /// that can read; otherwise denies with the uniform message.
    pub fn ensure_user_can_read(&self, user: &Principal, key_id: &KeyId) -> (r: Result<
        AccessRights,
        String,
    >)
        requires
            user.wf(),
            key_id_wf(*key_id),
        ensures
            match r {
                Ok(a) => read_access(self.ac(), user@, kid_view(*key_id)) == Some(a),
                Err(e) => read_access(self.ac(), user@, kid_view(*key_id)) is None && e@
                    == "unauthorized"@,
            },
    {
        if bytes_eq(user.bytes().as_slice(), key_id.0.bytes().as_slice()) {
            return Ok(AccessRights::owner_rights());
        }
        match self.access_control.get(user, key_id) {
            Some(v) => match AccessRights::from_repr(v) {
                Some(a) => if a.can_read() {
                    Ok(a)
                } else {
                    Err(unauthorized_error())
                },
                None => Err(unauthorized_error()),
            },
            None => Err(unauthorized_error()),
        }
    }

    /// Grants write access if the user is the owner or holds a stored level
    /// that can write; otherwise denies with the uniform message.
    pub fn ensure_user_can_write(&self, user: &Principal, key_id: &KeyId) -> (r: Result<
        AccessRights,
        String,
    >)
        requires
            user.wf(),
            key_id_wf(*key_id),
        ensures
            match r {
                Ok(a) => write_access(self.ac(), user@, kid_view(*key_id)) == Some(a),
                Err(e) => write_access(self.ac(), user@, kid_view(*key_id)) is None && e@
                    == "unauthorized"@,
            },
    {
        if bytes_eq(user.bytes().as_slice(), key_id.0.bytes().as_slice()) {
            return Ok(AccessRights::owner_rights());
        }
        match self.access_control.get(user, key_id) {
            Some(v) => match AccessRights::from_repr(v) {
                Some(a) => if a.can_write() {
                    Ok(a)
                } else {
                    Err(unauthorized_error())
                },
                None => Err(unauthorized_error()),
            },
            None => Err(unauthorized_error()),
        }
    }

    /// Grants the right to inspect sharing if the user is the owner or holds
    /// a stored level with management capability.
    pub fn ensure_user_can_get_user_rights(&self, user: &Principal, key_id: &KeyId) -> (r: Result<
        AccessRights,
        String,
    >)
        requires
            user.wf(),
            key_id_wf(*key_id),
        ensures
            match r {
                Ok(a) => get_rights_access(self.ac(), user@, kid_view(*key_id)) == Some(a),
                Err(e) => get_rights_access(self.ac(), user@, kid_view(*key_id)) is None && e@
                    == "unauthorized"@,
            },
    {
        if bytes_eq(user.bytes().as_slice(), key_id.0.bytes().as_slice()) {
            return Ok(AccessRights::owner_rights());
        }
        match self.access_control.get(user, key_id) {
            Some(v) => match AccessRights::from_repr(v) {
                Some(a) => if a.can_get_user_rights() {
                    Ok(a)
                } else {
                    Err(unauthorized_error())
                },
                None => Err(unauthorized_error()),
            },
            None => Err(unauthorized_error()),
        }
    }

    /// Grants the right to change sharing if the user is the owner or holds
    /// a stored level with management capability.
    pub fn ensure_user_can_set_user_rights(&self, user: &Principal, key_id: &KeyId) -> (r: Result<
        AccessRights,
        String,
    >)
        requires
            user.wf(),
            key_id_wf(*key_id),
        ensures
            match r {
                Ok(a) => manage_access(self.ac(), user@, kid_view(*key_id)) == Some(a),
                Err(e) => manage_access(self.ac(), user@, kid_view(*key_id)) is None && e@
                    == "unauthorized"@,
            },
    {
        if bytes_eq(user.bytes().as_slice(), key_id.0.bytes().as_slice()) {
            return Ok(AccessRights::owner_rights());
        }
        match self.access_control.get(user, key_id) {
            Some(v) => match AccessRights::from_repr(v) {
                Some(a) => if a.can_set_user_rights() {
                    Ok(a)
                } else {
                    Err(unauthorized_error())
                },
                None => Err(unauthorized_error()),
            },
            None => Err(unauthorized_error()),
        }
    }

    /// The rights a given user holds on a key, visible only to callers that
    /// may inspect sharing.
    pub fn get_user_rights(&self, caller: &Principal, key_id: &KeyId, user: &Principal) -> (r:
        Result<Option<AccessRights>, String>)
        requires
            caller.wf(),
            user.wf(),
            key_id_wf(*key_id),
        ensures
            match r {
                Ok(o) => get_rights_access(self.ac(), caller@, kid_view(*key_id)) is Some && o
                    == read_access(self.ac(), user@, kid_view(*key_id)),
                Err(e) => get_rights_access(self.ac(), caller@, kid_view(*key_id)) is None && e@
                    == "unauthorized"@,
            },
    {
        match self.ensure_user_can_get_user_rights(caller, key_id) {
            Err(e) => Err(e),
            Ok(_) => match self.ensure_user_can_read(user, key_id) {
                Ok(a) => Ok(Some(a)),
                Err(_) => Ok(None),
            },
        }
    }

    /// Grants or overwrites a user's level on a key. Only a caller with
    /// management rights may do so, and the key owner may never be named as
    /// grantee: the owner's rights are implicit and maximal, never stored.
    /// Inserts the share-index entry and the table entry together, and
    /// returns the previous level if one was stored.
    pub fn set_user_rights(
        &mut self,
        caller: &Principal,
        key_id: &KeyId,
        user: &Principal,
        access_rights: AccessRights,
    ) -> (r: Result<Option<AccessRights>, String>)
        requires
            old(self).wf(),
            caller.wf(),
            user.wf(),
            key_id_wf(*key_id),
        ensures
            final(self).wf(),
            final(self).ds() == old(self).ds(),
            match r {
                Ok(prev) => {
                    &&& manage_access(old(self).ac(), caller@, kid_view(*key_id)) is Some
                    &&& user@ != key_id.0@
                    &&& final(self).ac() == old(self).ac().insert(
                        (user@, kid_view(*key_id)),
                        access_rights.spec_repr(),
                    )
                    &&& final(self).shared() == old(self).shared().insert(
                        (kid_view(*key_id), user@),
                    )
                    &&& prev == stored_rights(old(self).ac(), user@, kid_view(*key_id))
                },
                Err(e) => {
                    &&& final(self).ac() == old(self).ac()
                    &&& final(self).shared() == old(self).shared()
                    &&& if manage_access(old(self).ac(), caller@, kid_view(*key_id)) is None {
                        e@ == "unauthorized"@
                    } else {
                        user@ == key_id.0@ && e@ == "cannot change key owner's user rights"@
                    }
                },
            },
    {
        match self.ensure_user_can_set_user_rights(caller, key_id) {
            Err(e) => {
                return Err(e);
            },
            Ok(_) => {},
        }
        if bytes_eq(user.bytes().as_slice(), key_id.0.bytes().as_slice()) {
            return Err("cannot change key owner's user rights".to_owned());
        }
        self.shared_keys.insert(key_id, user);
        let prev = self.access_control.insert(user, key_id, access_rights.as_repr());
        match prev {
            Some(v) => Ok(Some(rights_from_stored(v))),
            None => Ok(None),
        }
    }

    /// Revokes a user's access to a key. Only a caller with management
    /// rights may do so, and the owner's implicit access is non-revocable.
    /// Removes both paired entries and returns the previous level, if any.
    pub fn remove_user(&mut self, caller: &Principal, key_id: &KeyId, user: &Principal) -> (r:
        Result<Option<AccessRights>, String>)
        requires
            old(self).wf(),
            caller.wf(),
            user.wf(),
            key_id_wf(*key_id),
        ensures
            final(self).wf(),
            final(self).ds() == old(self).ds(),
            match r {
                Ok(prev) => {
                    &&& manage_access(old(self).ac(), caller@, kid_view(*key_id)) is Some
                    &&& !(caller@ == key_id.0@ && caller@ == user@)
                    &&& final(self).ac() == old(self).ac().remove((user@, kid_view(*key_id)))
                    &&& final(self).shared() == old(self).shared().remove(
                        (kid_view(*key_id), user@),
                    )
                    &&& prev == stored_rights(old(self).ac(), user@, kid_view(*key_id))
                },
                Err(e) => {
                    &&& final(self).ac() == old(self).ac()
                    &&& final(self).shared() == old(self).shared()
                    &&& if manage_access(old(self).ac(), caller@, kid_view(*key_id)) is None {
                        e@ == "unauthorized"@
                    } else {
                        caller@ == key_id.0@ && caller@ == user@ && e@ == "cannot remove key owner"@
                    }
                },
            },
    {
        match self.ensure_user_can_set_user_rights(caller, key_id) {
            Err(e) => {
                return Err(e);
            },
            Ok(_) => {},
        }
        if bytes_eq(caller.bytes().as_slice(), user.bytes().as_slice()) && bytes_eq(
            caller.bytes().as_slice(),
            key_id.0.bytes().as_slice(),
        ) {
            return Err("cannot remove key owner".to_owned());
        }
        self.shared_keys.remove(key_id, user);
        let prev = self.access_control.remove(user, key_id);
        match prev {
            Some(v) => Ok(Some(rights_from_stored(v))),
            None => Ok(None),
        }
    }

    /// Every key id for which the caller holds a stored grant, each once,
    /// in ascending lexicographic key-id order.
    pub fn get_accessible_shared_key_ids(&self, caller: &Principal) -> (r: Vec<KeyId>)
        requires
            caller.wf(),
        ensures
            forall|i: int|
                0 <= i < r@.len() ==> #[trigger] self.ac().dom().contains(
                    (caller@, kid_view(r@[i])),
                ),
            forall|k: KeyIdV|
                #[trigger] self.ac().dom().contains((caller@, k)) ==> exists|i: int|
                    0 <= i < r@.len() && kid_view(r@[i]) == k,
            forall|i: int, j: int|
                #![trigger r@[i], r@[j]]
                0 <= i < j < r@.len() ==> kid_lex_lt(kid_view(r@[i]), kid_view(r@[j])),
            forall|i: int, j: int|
                #![trigger r@[i], r@[j]]
                0 <= i < j < r@.len() ==> kid_view(r@[i]) != kid_view(r@[j]),
            forall|i: int| 0 <= i < r@.len() ==> key_id_wf(#[trigger] r@[i]),
    {
        self.access_control.keys_for_user(caller)
    }

    /// Every grantee of a key in ascending grantee order, paired with the
    /// rights under which they read it; visible only to callers that may
    /// inspect sharing.
    #[verifier::loop_isolation(false)]
    pub fn get_shared_user_access_for_key(&self, caller: &Principal, key_id: &KeyId) -> (r: Result<
        Vec<(Principal, AccessRights)>,
        String,
    >)
        requires
            self.wf(),
            caller.wf(),
            key_id_wf(*key_id),
        ensures
            match r {
                Ok(v) => {
                    &&& get_rights_access(self.ac(), caller@, kid_view(*key_id)) is Some
                    &&& forall|i: int|
                        0 <= i < v@.len() ==> #[trigger] self.shared().contains(
                            (kid_view(*key_id), v@[i].0@),
                        ) && Some(v@[i].1) == read_access(self.ac(), v@[i].0@, kid_view(*key_id))
                    &&& forall|u: Seq<u8>|
                        #[trigger] self.shared().contains((kid_view(*key_id), u)) ==> exists|i: int|
                            0 <= i < v@.len() && v@[i].0@ == u
                    &&& forall|i: int, j: int|
                        #![trigger v@[i], v@[j]]
                        0 <= i < j < v@.len() ==> lex_lt(v@[i].0@, v@[j].0@)
                    &&& forall|i: int, j: int|
                        #![trigger v@[i], v@[j]]
                        0 <= i < j < v@.len() ==> v@[i].0@ != v@[j].0@
                },
                Err(e) => get_rights_access(self.ac(), caller@, kid_view(*key_id)) is None && e@
                    == "unauthorized"@,
            },
    {
        match self.ensure_user_can_get_user_rights(caller, key_id) {
            Err(e) => {
                return Err(e);
            },
            Ok(_) => {},
        }
        let users = self.shared_keys.users_for_key(key_id);
        let mut out: Vec<(Principal, AccessRights)> = Vec::new();
        let mut i: usize = 0;
        while i < users.len()
            invariant
                i <= users@.len(),
                out@.len() == i,
                forall|j: int| 0 <= j < i ==> (#[trigger] out@[j]).0@ == users@[j]@,
                forall|j: int|
                    0 <= j < i ==> Some((#[trigger] out@[j]).1) == read_access(
                        self.ac(),
                        users@[j]@,
                        kid_view(*key_id),
                    ),
            decreases users@.len() - i,
        {
            match self.ensure_user_can_read(&users[i], key_id) {
                Ok(a) => {
                    out.push((users[i].clone(), a));
                },
                Err(_) => {
                    proof {
                        let u = users@[i as int]@;
                        assert(self.shared().contains((kid_view(*key_id), u)));
                        assert(self.ac().contains_key((u, kid_view(*key_id))));
                        assert(read_access(self.ac(), u, kid_view(*key_id)) is Some);
                        assert(false);
                    }
                    return unreached();
                },
            }
            i += 1;
        }
        proof {
            assert forall|u: Seq<u8>| #[trigger]
                self.shared().contains((kid_view(*key_id), u)) implies exists|j: int|
                0 <= j < out@.len() && out@[j].0@ == u by {
                let j = choose|j: int| 0 <= j < users@.len() && users@[j]@ == u;
                assert(out@[j].0@ == u);
            }
        }
        Ok(out)
    }

    /// Whether at least one grantee is recorded for the key.
    pub fn is_key_shared(&self, key_id: &KeyId) -> (r: bool)
        requires
            key_id_wf(*key_id),
        ensures
            r == exists|u: Seq<u8>| self.shared().contains((kid_view(*key_id), u)),
    {
        let users = self.shared_keys.users_for_key(key_id);
        if users.len() > 0 {
            proof {
                assert(self.shared().contains((kid_view(*key_id), users@[0]@)));
            }
            true
        } else {
            proof {
                assert forall|u: Seq<u8>| !self.shared().contains(
                    (kid_view(*key_id), u),
                ) by {
                    if self.shared().contains((kid_view(*key_id), u)) {
                        let i = choose|i: int| 0 <= i < users@.len() && users@[i]@ == u;
                        assert(false);
                    }
                }
            }
            false
        }
    }

    /// The context bytes for a public-key request: the domain separator.
    /// Verification keys are non-secret, so no authorization is required.
    pub fn verification_key_context(&self) -> (c: Vec<u8>)
        ensures
            c@ == self.ds(),
    {
        self.domain_separator.get()
    }

    /// Checks read access and, only on success, assembles the derivation
    /// request for the external vetKD service. The check happens before the
    /// asynchronous call is issued; rights revoked while the call is in
    /// flight are knowingly not re-checked.
    pub fn prepare_encrypted_vetkey_request(
        &self,
        caller: &Principal,
        key_id: &KeyId,
        transport_key: TransportKey,
    ) -> (r: Result<EncryptedVetKeyRequest, String>)
        requires
            caller.wf(),
            key_id_wf(*key_id),
        ensures
            match r {
                Ok(req) => {
                    &&& read_access(self.ac(), caller@, kid_view(*key_id)) is Some
                    &&& req.input@ == spec_vetkd_input(key_id.0@, key_id.1@)
                    &&& req.context@ == self.ds()
                    &&& req.transport_public_key@ == transport_key@
                },
                Err(e) => read_access(self.ac(), caller@, kid_view(*key_id)) is None && e@
                    == "unauthorized"@,
            },
    {
        match self.ensure_user_can_read(caller, key_id) {
            Err(e) => {
                return Err(e);
            },
            Ok(_) => {},
        }
        let input = key_id_to_vetkd_input(&key_id.0, key_id.1.bytes().as_slice());
        let context = self.domain_separator.get();
        Ok(
            EncryptedVetKeyRequest {
                input,
                context,
                transport_public_key: transport_key.into_vec(),
            },
        )
    }
}

/// The length-prefixed derivation input for a key id: one byte holding the
/// owner length, the owner bytes, then the raw key name bytes.
#[verifier::loop_isolation(false)]
pub fn key_id_to_vetkd_input(principal: &Principal, key_name: &[u8]) -> (r: Vec<u8>)
    requires
        principal.wf(),
    ensures
        r@ == spec_vetkd_input(principal@, key_name@),
{
    let pb = principal.bytes();
    let mut out: Vec<u8> = Vec::new();
    out.push(pb.len() as u8);
    let mut i: usize = 0;
    while i < pb.len()
        invariant
            i <= pb@.len(),
            out@ == seq![principal@.len() as u8] + principal@.subrange(0, i as int),
        decreases pb@.len() - i,
    {
        out.push(pb[i]);
        i += 1;
    }
    let mut j: usize = 0;
    while j < key_name.len()
        invariant
            j <= key_name@.len(),
            out@ == seq![principal@.len() as u8] + principal@ + key_name@.subrange(0, j as int),
        decreases key_name@.len() - j,
    {
        out.push(key_name[j]);
        j += 1;
    }
    proof {
        assert(out@ =~= spec_vetkd_input(principal@, key_name@));
    }
    out
}

} // verus!
