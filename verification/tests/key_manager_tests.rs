use vetkd_key_manager::encrypted_maps::EncryptedMaps;
use vetkd_key_manager::key_manager::{key_id_to_vetkd_input, KeyManager};
use vetkd_key_manager::stores::memory_regions;
use vetkd_key_manager::types::{AccessRights, ByteBuf, KeyName, Principal};

fn new_key_manager(domain_separator: &str) -> KeyManager {
    let (m0, m1, m2, _m3) = memory_regions();
    KeyManager::init(domain_separator, m0, m1, m2)
}

fn new_encrypted_maps(domain_separator: &str) -> EncryptedMaps {
    let (m0, m1, m2, m3) = memory_regions();
    EncryptedMaps::init(domain_separator, m0, m1, m2, m3)
}

fn principal(bytes: &[u8]) -> Principal {
    Principal::from_bytes(bytes.to_vec())
}

fn name(bytes: &[u8]) -> KeyName {
    KeyName::from_bytes(bytes.to_vec())
}

fn value(bytes: &[u8]) -> ByteBuf {
    ByteBuf::from(bytes.to_vec())
}

#[test]
fn owner_passes_every_check_on_empty_table() {
    let km = new_key_manager("ds");
    let owner = principal(b"alice");
    let key_id = (owner.clone(), name(b"k"));
    assert_eq!(
        km.ensure_user_can_read(&owner, &key_id),
        Ok(AccessRights::ReadWriteManage)
    );
    assert_eq!(
        km.ensure_user_can_write(&owner, &key_id),
        Ok(AccessRights::ReadWriteManage)
    );
    assert_eq!(
        km.ensure_user_can_get_user_rights(&owner, &key_id),
        Ok(AccessRights::ReadWriteManage)
    );
    assert_eq!(
        km.ensure_user_can_set_user_rights(&owner, &key_id),
        Ok(AccessRights::ReadWriteManage)
    );
}

#[test]
fn stranger_fails_every_check() {
    let km = new_key_manager("ds");
    let owner = principal(b"alice");
    let stranger = principal(b"mallory");
    let key_id = (owner, name(b"k"));
    assert_eq!(
        km.ensure_user_can_read(&stranger, &key_id),
        Err("unauthorized".to_string())
    );
    assert_eq!(
        km.ensure_user_can_write(&stranger, &key_id),
        Err("unauthorized".to_string())
    );
    assert_eq!(
        km.ensure_user_can_get_user_rights(&stranger, &key_id),
        Err("unauthorized".to_string())
    );
    assert_eq!(
        km.ensure_user_can_set_user_rights(&stranger, &key_id),
        Err("unauthorized".to_string())
    );
}

#[test]
fn grant_levels_gate_checks_exactly() {
    let mut km = new_key_manager("ds");
    let owner = principal(b"alice");
    let reader = principal(b"bob");
    let writer = principal(b"carol");
    let manager = principal(b"dave");
    let key_id = (owner.clone(), name(b"k"));

    assert_eq!(
        km.set_user_rights(&owner, &key_id, &reader, AccessRights::Read),
        Ok(None)
    );
    assert_eq!(
        km.set_user_rights(&owner, &key_id, &writer, AccessRights::ReadWrite),
        Ok(None)
    );
    assert_eq!(
        km.set_user_rights(&owner, &key_id, &manager, AccessRights::ReadWriteManage),
        Ok(None)
    );

    assert_eq!(km.ensure_user_can_read(&reader, &key_id), Ok(AccessRights::Read));
    assert_eq!(
        km.ensure_user_can_write(&reader, &key_id),
        Err("unauthorized".to_string())
    );
    assert_eq!(
        km.ensure_user_can_write(&writer, &key_id),
        Ok(AccessRights::ReadWrite)
    );
    assert_eq!(
        km.ensure_user_can_set_user_rights(&writer, &key_id),
        Err("unauthorized".to_string())
    );
    assert_eq!(
        km.ensure_user_can_set_user_rights(&manager, &key_id),
        Ok(AccessRights::ReadWriteManage)
    );
}

#[test]
fn set_rights_overwrites_and_reports_previous_level() {
    let mut km = new_key_manager("ds");
    let owner = principal(b"alice");
    let grantee = principal(b"bob");
    let key_id = (owner.clone(), name(b"k"));

    assert_eq!(
        km.set_user_rights(&owner, &key_id, &grantee, AccessRights::Read),
        Ok(None)
    );
    assert_eq!(
        km.set_user_rights(&owner, &key_id, &grantee, AccessRights::ReadWrite),
        Ok(Some(AccessRights::Read))
    );
    assert_eq!(
        km.ensure_user_can_read(&grantee, &key_id),
        Ok(AccessRights::ReadWrite)
    );
}

#[test]
fn owner_cannot_alter_or_revoke_own_rights() {
    let mut km = new_key_manager("ds");
    let owner = principal(b"alice");
    let key_id = (owner.clone(), name(b"k"));

    assert_eq!(
        km.set_user_rights(&owner, &key_id, &owner, AccessRights::Read),
        Err("cannot change key owner's user rights".to_string())
    );
    assert_eq!(
        km.remove_user(&owner, &key_id, &owner),
        Err("cannot remove key owner".to_string())
    );
    // the failed attempts left no trace: the key is still unshared
    assert!(!km.is_key_shared(&key_id));
}

#[test]
fn nobody_can_grant_rights_to_the_owner() {
    let mut km = new_key_manager("ds");
    let owner = principal(b"alice");
    let admin = principal(b"bob");
    let key_id = (owner.clone(), name(b"k"));

    assert_eq!(
        km.set_user_rights(&owner, &key_id, &admin, AccessRights::ReadWriteManage),
        Ok(None)
    );
    // even a non-owner administrator cannot name the owner as grantee
    assert_eq!(
        km.set_user_rights(&admin, &key_id, &owner, AccessRights::Read),
        Err("cannot change key owner's user rights".to_string())
    );
    // no owner entry was stored: the administrator stays the only grantee
    assert_eq!(
        km.get_shared_user_access_for_key(&owner, &key_id).unwrap(),
        vec![(admin.clone(), AccessRights::ReadWriteManage)]
    );
}

#[test]
fn remove_user_returns_previous_level_and_is_idempotent() {
    let mut km = new_key_manager("ds");
    let owner = principal(b"alice");
    let grantee = principal(b"bob");
    let key_id = (owner.clone(), name(b"k"));

    assert_eq!(
        km.set_user_rights(&owner, &key_id, &grantee, AccessRights::ReadWrite),
        Ok(None)
    );
    assert!(km.is_key_shared(&key_id));
    assert_eq!(
        km.remove_user(&owner, &key_id, &grantee),
        Ok(Some(AccessRights::ReadWrite))
    );
    assert_eq!(km.remove_user(&owner, &key_id, &grantee), Ok(None));
    assert!(!km.is_key_shared(&key_id));
}

#[test]
fn accessible_shared_key_ids_lists_grants() {
    let mut km = new_key_manager("ds");
    let alice = principal(b"alice");
    let bob = principal(b"bob");
    let grantee = principal(b"carol");
    let key_a = (alice.clone(), name(b"a"));
    let key_b = (bob.clone(), name(b"b"));

    assert_eq!(km.get_accessible_shared_key_ids(&grantee).len(), 0);
    km.set_user_rights(&alice, &key_a, &grantee, AccessRights::Read)
        .unwrap();
    km.set_user_rights(&bob, &key_b, &grantee, AccessRights::ReadWrite)
        .unwrap();

    let ids = km.get_accessible_shared_key_ids(&grantee);
    assert_eq!(ids.len(), 2);
    assert!(ids.contains(&key_a));
    assert!(ids.contains(&key_b));
    // ascending key-id order: owner "alice" sorts before owner "bob"
    assert_eq!(ids, vec![key_a, key_b]);
}

#[test]
fn shared_user_access_pairs_grantees_with_their_rights() {
    let mut km = new_key_manager("ds");
    let owner = principal(b"alice");
    let reader = principal(b"bob");
    let manager = principal(b"carol");
    let stranger = principal(b"mallory");
    let key_id = (owner.clone(), name(b"k"));

    km.set_user_rights(&owner, &key_id, &reader, AccessRights::Read)
        .unwrap();
    km.set_user_rights(&owner, &key_id, &manager, AccessRights::ReadWriteManage)
        .unwrap();

    let access = km.get_shared_user_access_for_key(&owner, &key_id).unwrap();
    assert_eq!(access.len(), 2);
    assert!(access.contains(&(reader.clone(), AccessRights::Read)));
    assert!(access.contains(&(manager.clone(), AccessRights::ReadWriteManage)));
    // ascending grantee order: "bob" sorts before "carol"
    assert_eq!(
        access,
        vec![
            (reader.clone(), AccessRights::Read),
            (manager.clone(), AccessRights::ReadWriteManage),
        ]
    );

    // a manager may inspect sharing; a reader or stranger may not
    assert!(km.get_shared_user_access_for_key(&manager, &key_id).is_ok());
    assert_eq!(
        km.get_shared_user_access_for_key(&reader, &key_id),
        Err("unauthorized".to_string())
    );
    assert_eq!(
        km.get_shared_user_access_for_key(&stranger, &key_id),
        Err("unauthorized".to_string())
    );
}

#[test]
fn get_user_rights_requires_management_and_reports_grants() {
    let mut km = new_key_manager("ds");
    let owner = principal(b"alice");
    let reader = principal(b"bob");
    let stranger = principal(b"mallory");
    let key_id = (owner.clone(), name(b"k"));

    km.set_user_rights(&owner, &key_id, &reader, AccessRights::Read)
        .unwrap();

    assert_eq!(
        km.get_user_rights(&owner, &key_id, &reader),
        Ok(Some(AccessRights::Read))
    );
    assert_eq!(
        km.get_user_rights(&owner, &key_id, &owner),
        Ok(Some(AccessRights::ReadWriteManage))
    );
    assert_eq!(km.get_user_rights(&owner, &key_id, &stranger), Ok(None));
    assert_eq!(
        km.get_user_rights(&reader, &key_id, &reader),
        Err("unauthorized".to_string())
    );
}

#[test]
fn vetkd_input_is_length_prefixed_owner_then_name() {
    let p = principal(b"AB");
    assert_eq!(key_id_to_vetkd_input(&p, b"C"), vec![2u8, b'A', b'B', b'C']);

    let q = principal(b"A");
    assert_eq!(key_id_to_vetkd_input(&q, b"BC"), vec![1u8, b'A', b'B', b'C']);

    // the length prefix keeps the two key ids distinct
    assert_ne!(key_id_to_vetkd_input(&p, b"C"), key_id_to_vetkd_input(&q, b"BC"));

    let empty = principal(b"");
    assert_eq!(key_id_to_vetkd_input(&empty, b""), vec![0u8]);
}

#[test]
fn verification_key_context_is_the_domain_separator() {
    let km = new_key_manager("my deployment");
    assert_eq!(km.verification_key_context(), b"my deployment".to_vec());
}

#[test]
fn vetkey_request_is_gated_and_carries_the_key_id() {
    let mut km = new_key_manager("ctx");
    let owner = principal(b"alice");
    let reader = principal(b"bob");
    let stranger = principal(b"mallory");
    let key_id = (owner.clone(), name(b"secret"));

    km.set_user_rights(&owner, &key_id, &reader, AccessRights::Read)
        .unwrap();

    let req = km
        .prepare_encrypted_vetkey_request(&reader, &key_id, ByteBuf::from(b"tpk".to_vec()))
        .unwrap();
    let mut expected_input = vec![5u8];
    expected_input.extend_from_slice(b"alice");
    expected_input.extend_from_slice(b"secret");
    assert_eq!(req.input, expected_input);
    assert_eq!(req.context, b"ctx".to_vec());
    assert_eq!(req.transport_public_key, b"tpk".to_vec());

    let denied = km.prepare_encrypted_vetkey_request(
        &stranger,
        &key_id,
        ByteBuf::from(b"tpk".to_vec()),
    );
    assert!(matches!(denied, Err(e) if e == "unauthorized"));
}

#[test]
fn three_principals_scenario() {
    // Owner O creates map "m" with k1 -> v1; grants G level Read; G can get
    // k1 but G's put fails; O upgrades G to ReadWrite; G's put succeeds and
    // returns the previous value v1.
    let mut maps = new_encrypted_maps("scenario");
    let o = principal(b"owner-o");
    let g = principal(b"grantee-g");
    let map_id = (o.clone(), name(b"m"));
    let k1 = name(b"k1");
    let v1 = value(b"v1");
    let v2 = value(b"v2");

    assert_eq!(
        maps.insert_encrypted_value(o.clone(), map_id.clone(), k1.clone(), v1.clone()),
        Ok(None)
    );
    assert_eq!(
        maps.set_user_rights(o.clone(), map_id.clone(), g.clone(), AccessRights::Read),
        Ok(None)
    );
    assert_eq!(
        maps.get_encrypted_value(g.clone(), map_id.clone(), k1.clone()),
        Ok(Some(v1.clone()))
    );
    assert_eq!(
        maps.insert_encrypted_value(g.clone(), map_id.clone(), k1.clone(), v2.clone()),
        Err("unauthorized user".to_string())
    );
    assert_eq!(
        maps.set_user_rights(o.clone(), map_id.clone(), g.clone(), AccessRights::ReadWrite),
        Ok(Some(AccessRights::Read))
    );
    assert_eq!(
        maps.insert_encrypted_value(g.clone(), map_id.clone(), k1.clone(), v2.clone()),
        Ok(Some(v1.clone()))
    );
    assert_eq!(
        maps.get_encrypted_value(o.clone(), map_id.clone(), k1.clone()),
        Ok(Some(v2))
    );
}

#[test]
fn remove_map_returns_all_written_values_and_empties_the_map() {
    let mut maps = new_encrypted_maps("ds");
    let o = principal(b"owner");
    let map_id = (o.clone(), name(b"m"));
    let written = vec![
        (name(b"k1"), value(b"v1")),
        (name(b"k2"), value(b"v2")),
        (name(b"k3"), value(b"v3")),
    ];
    for (k, v) in written.iter() {
        maps.insert_encrypted_value(o.clone(), map_id.clone(), k.clone(), v.clone())
            .unwrap();
    }

    let mut removed = maps.remove_map_values(o.clone(), map_id.clone()).unwrap();
    removed.sort();
    assert_eq!(removed, vec![value(b"v1"), value(b"v2"), value(b"v3")]);

    assert_eq!(
        maps.get_encrypted_values_for_map(o.clone(), map_id.clone()),
        Ok(vec![])
    );
    assert_eq!(maps.get_owned_non_empty_map_names(o.clone()), Ok(vec![]));
}

#[test]
fn values_for_map_are_sorted_by_map_key() {
    let mut maps = new_encrypted_maps("ds");
    let o = principal(b"owner");
    let map_id = (o.clone(), name(b"m"));
    maps.insert_encrypted_value(o.clone(), map_id.clone(), name(b"zz"), value(b"3"))
        .unwrap();
    maps.insert_encrypted_value(o.clone(), map_id.clone(), name(b"aa"), value(b"1"))
        .unwrap();
    maps.insert_encrypted_value(o.clone(), map_id.clone(), name(b"mm"), value(b"2"))
        .unwrap();

    let entries = maps
        .get_encrypted_values_for_map(o.clone(), map_id.clone())
        .unwrap();
    assert_eq!(
        entries,
        vec![
            (name(b"aa"), value(b"1")),
            (name(b"mm"), value(b"2")),
            (name(b"zz"), value(b"3")),
        ]
    );
}

#[test]
fn owned_map_names_track_live_entries_exactly() {
    let mut maps = new_encrypted_maps("ds");
    let o = principal(b"owner");
    let other = principal(b"other");
    let m1 = (o.clone(), name(b"m1"));
    let m2 = (o.clone(), name(b"m2"));
    let foreign = (other.clone(), name(b"m3"));

    assert_eq!(maps.get_owned_non_empty_map_names(o.clone()), Ok(vec![]));

    maps.insert_encrypted_value(o.clone(), m1.clone(), name(b"k"), value(b"v"))
        .unwrap();
    maps.insert_encrypted_value(o.clone(), m2.clone(), name(b"k"), value(b"v"))
        .unwrap();
    maps.insert_encrypted_value(other.clone(), foreign.clone(), name(b"k"), value(b"v"))
        .unwrap();

    let names = maps.get_owned_non_empty_map_names(o.clone()).unwrap();
    assert_eq!(names.len(), 2);
    assert!(names.contains(&name(b"m1")));
    assert!(names.contains(&name(b"m2")));

    // removing the last entry of m1 removes it from the enumeration
    maps.remove_encrypted_value(o.clone(), m1.clone(), name(b"k"))
        .unwrap();
    let names = maps.get_owned_non_empty_map_names(o.clone()).unwrap();
    assert_eq!(names, vec![name(b"m2")]);
}

#[test]
fn bytebuf_construction_and_conversion_round_trip() {
    assert_eq!(ByteBuf::new(), ByteBuf::default());
    assert_eq!(Vec::<u8>::from(ByteBuf::new()), Vec::<u8>::new());
    let b = ByteBuf::from(vec![1u8, 2, 3]);
    assert_eq!(b.bytes(), &vec![1u8, 2, 3]);
    assert_eq!(Vec::<u8>::from(b), vec![1u8, 2, 3]);
}

#[test]
fn access_rights_repr_round_trip() {
    for (level, repr) in [
        (AccessRights::Read, 0u8),
        (AccessRights::ReadWrite, 1u8),
        (AccessRights::ReadWriteManage, 2u8),
    ] {
        assert_eq!(level.as_repr(), repr);
        assert_eq!(AccessRights::from_repr(repr), Some(level));
    }
    assert_eq!(AccessRights::from_repr(3), None);
}

#[test]
fn map_level_user_rights_delegate_to_the_key_manager() {
    let mut maps = new_encrypted_maps("ds");
    let o = principal(b"owner");
    let g = principal(b"grantee");
    let map_id = (o.clone(), name(b"m"));

    assert_eq!(
        maps.set_user_rights(o.clone(), map_id.clone(), g.clone(), AccessRights::Read),
        Ok(None)
    );
    assert_eq!(
        maps.get_user_rights(o.clone(), map_id.clone(), g.clone()),
        Ok(Some(AccessRights::Read))
    );
    assert_eq!(
        maps.get_user_rights(g.clone(), map_id.clone(), g.clone()),
        Err("unauthorized".to_string())
    );
    assert_eq!(
        maps.remove_user(o.clone(), map_id.clone(), g.clone()),
        Ok(Some(AccessRights::Read))
    );
    assert_eq!(maps.get_user_rights(o.clone(), map_id, g), Ok(None));
}
