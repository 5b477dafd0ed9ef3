//! Broker-wide laws, stated over the models that the public contracts use
//! and proved once and for all.

use vstd::prelude::*;

use crate::key_manager::{
    get_rights_access, manage_access, no_owner_entries, read_access, stored_rights, write_access,
    KeyManager,
};
use crate::stores::KeyIdV;
use crate::types::{AccessControl, AccessRights};

verus! {

/// The owner of a key id passes every capability check with the maximal
/// level, whatever the authorization table holds.
pub proof fn lemma_owner_always_authorized(
    ac: Map<(Seq<u8>, KeyIdV), u8>,
    owner: Seq<u8>,
    key: KeyIdV,
)
    requires
        owner == key.0,
    ensures
        read_access(ac, owner, key) == Some(AccessRights::ReadWriteManage),
        write_access(ac, owner, key) == Some(AccessRights::ReadWriteManage),
        get_rights_access(ac, owner, key) == Some(AccessRights::ReadWriteManage),
        manage_access(ac, owner, key) == Some(AccessRights::ReadWriteManage),
{
}

/// A key's owner never appears as a grantee in a well-formed broker: the
/// grant boundary rejects the owner as grantee whoever calls, revocation
/// only removes entries, and every mutating operation preserves
/// well-formedness, so this holds after any sequence of grants and
/// revocations.
pub proof fn lemma_owner_never_a_grantee(km: KeyManager)
    requires
        km.wf(),
    ensures
        no_owner_entries(km.ac()),
        forall|k: KeyIdV| !(#[trigger] km.ac().contains_key((k.0, k))),
{
    assert forall|k: KeyIdV| !(#[trigger] km.ac().contains_key((k.0, k))) by {
        if km.ac().contains_key((k.0, k)) {
            assert((k.0, k).0 == (k.0, k).1.0);
        }
    }
}

/// In a well-formed broker the share index and the authorization table are
/// bijective: (key, grantee) stands in the index exactly when (grantee, key)
/// stands in the table. Every mutating operation preserves well-formedness,
/// so this holds after any sequence of grants and revocations.
pub proof fn lemma_share_index_bijection(km: KeyManager)
    requires
        km.wf(),
    ensures
        forall|k: KeyIdV, u: Seq<u8>|
            #[trigger] km.shared().contains((k, u)) <==> km.ac().contains_key((u, k)),
{
    assert forall|k: KeyIdV, u: Seq<u8>|
        #[trigger] km.shared().contains((k, u)) <==> km.ac().contains_key((u, k)) by {
        if km.shared().contains((k, u)) {
            assert(km.ac().contains_key((u, k)));
        }
        if km.ac().contains_key((u, k)) {
            assert(km.shared().contains((k, u)));
        }
    }
}

/// Granting is an idempotent overwrite: after an authorized grant of one
/// level, a second grant by the same caller is still authorized, reports
/// the first level as the previous one, and leaves exactly the second level
/// stored — as if only the second grant had happened. The one excluded
/// input is an administrator demoting itself (caller == grantee != owner):
/// there the first call strips the caller's management rights and the
/// second is denied, leaving the first level stored.
pub proof fn lemma_set_rights_idempotent_overwrite(
    ac: Map<(Seq<u8>, KeyIdV), u8>,
    caller: Seq<u8>,
    user: Seq<u8>,
    key: KeyIdV,
    first: AccessRights,
    second: AccessRights,
)
    requires
        manage_access(ac, caller, key) is Some,
        user != key.0,
        caller == key.0 || caller != user,
    ensures
        manage_access(ac.insert((user, key), first.spec_repr()), caller, key) is Some,
        stored_rights(ac.insert((user, key), first.spec_repr()), user, key) == Some(first),
        ac.insert((user, key), first.spec_repr()).insert((user, key), second.spec_repr()) =~= ac
            .insert((user, key), second.spec_repr()),
{
    assert(AccessRights::spec_from_repr(first.spec_repr()) == Some(first));
    if caller != key.0 {
        assert(stored_rights(ac.insert((user, key), first.spec_repr()), caller, key)
            == stored_rights(ac, caller, key));
    }
}

/// A caller who is not the owner and whose stored level (if any) lacks the
/// management capability can never pass the manage check, whatever the
/// target: grants and revocations by such a caller are always denied.
pub proof fn lemma_non_admin_cannot_manage(
    ac: Map<(Seq<u8>, KeyIdV), u8>,
    user: Seq<u8>,
    key: KeyIdV,
)
    requires
        user != key.0,
        match stored_rights(ac, user, key) {
            Some(a) => !a.spec_can_set_user_rights(),
            None => true,
        },
    ensures
        manage_access(ac, user, key) is None,
{
}

/// A grantee holding only the read level may read but never write: the read
/// gate passes and the write gate refuses.
pub proof fn lemma_read_only_grant_cannot_write(
    ac: Map<(Seq<u8>, KeyIdV), u8>,
    user: Seq<u8>,
    key: KeyIdV,
)
    requires
        user != key.0,
        stored_rights(ac, user, key) == Some(AccessRights::Read),
    ensures
        read_access(ac, user, key) == Some(AccessRights::Read),
        write_access(ac, user, key) is None,
{
}

/// Writing a value and reading it back under the same (map id, map key)
/// yields the written value.
pub proof fn lemma_put_get_round_trip(
    vm: Map<(KeyIdV, Seq<u8>), Seq<u8>>,
    mid: KeyIdV,
    key: Seq<u8>,
    value: Seq<u8>,
)
    ensures
        vm.insert((mid, key), value).contains_key((mid, key)),
        vm.insert((mid, key), value)[(mid, key)] == value,
{
}

/// After a bulk removal of a map — which leaves exactly the entries of the
/// other maps — no entry of the removed map remains, so a subsequent bulk
/// read of it returns nothing.
pub proof fn lemma_remove_map_clears(
    vm_before: Map<(KeyIdV, Seq<u8>), Seq<u8>>,
    vm_after: Map<(KeyIdV, Seq<u8>), Seq<u8>>,
    mid: KeyIdV,
)
    requires
        forall|k: (KeyIdV, Seq<u8>)|
            #[trigger] vm_after.contains_key(k) <==> (vm_before.contains_key(k) && k.0 != mid),
    ensures
        forall|mk: Seq<u8>| !vm_after.contains_key((mid, mk)),
{
    assert forall|mk: Seq<u8>| !vm_after.contains_key((mid, mk)) by {
        assert((mid, mk).0 == mid);
    }
}

} // verus!
