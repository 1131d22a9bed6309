use dimi::errors::{DimiError, OpError};
use dimi::records::{BeatUpdateArgs, Identity};
use dimi::registry::{
    beat_archive, beat_create, beat_toggle_shared, beat_update, init_config, register_user,
    set_roles, track_create, track_delete, BeatCreate, BeatOwner, BeatUpdate, InitConfig,
    Registry, RegisterUser, SetRoles, TrackCreate, TrackDelete,
};

fn id(b: u8) -> Identity {
    Identity::new([b; 32])
}

fn simple_beat(title: &[u8]) -> BeatCreate {
    BeatCreate {
        title: title.to_vec(),
        bpm: 120,
        musical_key: [0; 8],
        tags: Vec::new(),
        uri: b"ipfs://beat".to_vec(),
        content_hash: [7; 32],
        content_type: [1; 16],
        byte_len: 44100,
    }
}

fn producer(reg: &mut Registry, who: Identity, roles: u8) {
    let r = register_user(
        reg,
        who,
        RegisterUser { display_name: b"someone".to_vec(), roles },
        1,
    );
    assert_eq!(r, Ok(()));
}

#[test]
fn init_config_sets_admin_once() {
    let mut reg = Registry::new();
    let a = id(1);
    assert_eq!(init_config(&mut reg, InitConfig { admin: a }), Ok(()));
    let cfg = reg.get_config().expect("config exists");
    assert!(cfg.admin.equals(&a));
    // the slot is occupied: re-creation must fail
    assert_eq!(
        init_config(&mut reg, InitConfig { admin: id(2) }),
        Err(OpError::SlotOccupied)
    );
    let cfg = reg.get_config().expect("config still exists");
    assert!(cfg.admin.equals(&a));
}

#[test]
fn register_user_name_budget() {
    // exactly 32 bytes succeeds; 33 fails with NameTooLong
    let mut reg = Registry::new();
    let r = register_user(
        &mut reg,
        id(1),
        RegisterUser { display_name: vec![b'x'; 32], roles: 0 },
        5,
    );
    assert_eq!(r, Ok(()));
    let u = reg.get_user(&id(1)).expect("registered");
    assert_eq!(u.display_name.len(), 32);
    assert_eq!(u.next_beat_id, 0);
    assert_eq!(u.created_at, 5);

    let r = register_user(
        &mut reg,
        id(2),
        RegisterUser { display_name: vec![b'x'; 33], roles: 0 },
        5,
    );
    assert_eq!(r, Err(OpError::Rejected(DimiError::NameTooLong)));
    assert!(reg.get_user(&id(2)).is_none());
}

#[test]
fn register_user_once_per_identity() {
    let mut reg = Registry::new();
    producer(&mut reg, id(1), 2);
    let r = register_user(
        &mut reg,
        id(1),
        RegisterUser { display_name: b"again".to_vec(), roles: 4 },
        9,
    );
    assert_eq!(r, Err(OpError::SlotOccupied));
    // the original record is untouched
    assert_eq!(reg.get_user(&id(1)).unwrap().roles, 2);
}

#[test]
fn set_roles_admin_only() {
    let mut reg = Registry::new();
    let admin = id(1);
    let user = id(2);
    producer(&mut reg, user, 0);
    // no config yet
    assert_eq!(
        set_roles(&mut reg, admin, SetRoles { user, roles: 4 }),
        Err(OpError::MissingRecord)
    );
    assert_eq!(init_config(&mut reg, InitConfig { admin }), Ok(()));
    // a non-admin cannot escalate roles, not even their own
    assert_eq!(
        set_roles(&mut reg, user, SetRoles { user, roles: 7 }),
        Err(OpError::Rejected(DimiError::Unauthorized))
    );
    assert_eq!(reg.get_user(&user).unwrap().roles, 0);
    // the admin can
    assert_eq!(set_roles(&mut reg, admin, SetRoles { user, roles: 6 }), Ok(()));
    assert_eq!(reg.get_user(&user).unwrap().roles, 6);
    // but only on registered users
    assert_eq!(
        set_roles(&mut reg, admin, SetRoles { user: id(3), roles: 2 }),
        Err(OpError::MissingRecord)
    );
}

#[test]
fn beat_create_requires_producer() {
    let mut reg = Registry::new();
    producer(&mut reg, id(1), 4); // artist only
    let r = beat_create(&mut reg, id(1), simple_beat(b"nope"), 10);
    assert_eq!(r, Err(OpError::Rejected(DimiError::Unauthorized)));
    // admin alone does not imply producer
    producer(&mut reg, id(2), 1);
    let r = beat_create(&mut reg, id(2), simple_beat(b"nope"), 10);
    assert_eq!(r, Err(OpError::Rejected(DimiError::Unauthorized)));
    // an unregistered identity has no record to check against
    let r = beat_create(&mut reg, id(3), simple_beat(b"nope"), 10);
    assert_eq!(r, Err(OpError::MissingRecord));
}

#[test]
fn beat_create_field_budgets() {
    let mut reg = Registry::new();
    producer(&mut reg, id(1), 2);
    let mut c = simple_beat(b"ok");
    c.title = vec![b't'; 65];
    assert_eq!(
        beat_create(&mut reg, id(1), c, 10),
        Err(OpError::Rejected(DimiError::TitleTooLong))
    );
    let mut c = simple_beat(b"ok");
    c.uri = vec![b'u'; 201];
    assert_eq!(
        beat_create(&mut reg, id(1), c, 10),
        Err(OpError::Rejected(DimiError::UriTooLong))
    );
    let mut c = simple_beat(b"ok");
    c.tags = vec![[0u8; 16]; 7];
    assert_eq!(
        beat_create(&mut reg, id(1), c, 10),
        Err(OpError::Rejected(DimiError::TooManyTags))
    );
    // nothing was created, and boundary sizes pass
    let mut c = simple_beat(b"ok");
    c.title = vec![b't'; 64];
    c.uri = vec![b'u'; 200];
    c.tags = vec![[0u8; 16]; 6];
    assert_eq!(beat_create(&mut reg, id(1), c, 10), Ok(0));
}

#[test]
fn beat_ids_count_up_without_gaps() {
    let mut reg = Registry::new();
    producer(&mut reg, id(1), 2);
    for n in 0..5u16 {
        let got = beat_create(&mut reg, id(1), simple_beat(b"b"), 10 + n as i64);
        assert_eq!(got, Ok(n));
    }
    assert_eq!(reg.get_user(&id(1)).unwrap().next_beat_id, 5);
    for n in 0..5u16 {
        assert!(reg.get_beat(&id(1), n).is_some());
    }
    assert!(reg.get_beat(&id(1), 5).is_none());
}

#[test]
fn beat_counter_overflows_at_range_end() {
    let mut reg = Registry::new();
    producer(&mut reg, id(1), 2);
    for _ in 0..u16::MAX {
        let c = BeatCreate {
            title: Vec::new(),
            bpm: 0,
            musical_key: [0; 8],
            tags: Vec::new(),
            uri: Vec::new(),
            content_hash: [0; 32],
            content_type: [0; 16],
            byte_len: 0,
        };
        assert!(beat_create(&mut reg, id(1), c, 0).is_ok());
    }
    assert_eq!(reg.get_user(&id(1)).unwrap().next_beat_id, u16::MAX);
    let c = simple_beat(b"one too many");
    assert_eq!(
        beat_create(&mut reg, id(1), c, 0),
        Err(OpError::Rejected(DimiError::Overflow))
    );
}

#[test]
fn beat_update_patches_only_present_fields() {
    let mut reg = Registry::new();
    producer(&mut reg, id(1), 2);
    assert_eq!(beat_create(&mut reg, id(1), simple_beat(b"first"), 10), Ok(0));
    let mut args = BeatUpdateArgs::none();
    args.bpm = Some(90);
    args.uri = Some(b"ipfs://other".to_vec());
    let r = beat_update(
        &mut reg,
        id(1),
        BeatUpdate { owner: id(1), beat_id: 0 },
        args,
        20,
    );
    assert_eq!(r, Ok(()));
    let b = reg.get_beat(&id(1), 0).unwrap();
    assert_eq!(b.bpm, 90);
    assert_eq!(b.uri, b"ipfs://other".to_vec());
    assert_eq!(b.title, b"first".to_vec());
    assert_eq!(b.created_at, 10);
    assert_eq!(b.updated_at, 20);
}

#[test]
fn beat_update_empty_patch_bumps_updated_at_only() {
    let mut reg = Registry::new();
    producer(&mut reg, id(1), 2);
    assert_eq!(beat_create(&mut reg, id(1), simple_beat(b"keep"), 10), Ok(0));
    let r = beat_update(
        &mut reg,
        id(1),
        BeatUpdate { owner: id(1), beat_id: 0 },
        BeatUpdateArgs::none(),
        33,
    );
    assert_eq!(r, Ok(()));
    let b = reg.get_beat(&id(1), 0).unwrap();
    assert_eq!(b.updated_at, 33);
    // everything else is bit-for-bit the created record
    assert_eq!(b.title, b"keep".to_vec());
    assert_eq!(b.bpm, 120);
    assert_eq!(b.musical_key, [0; 8]);
    assert_eq!(b.tags, Vec::<[u8; 16]>::new());
    assert_eq!(b.uri, b"ipfs://beat".to_vec());
    assert_eq!(b.content_hash, [7; 32]);
    assert_eq!(b.content_type, [1; 16]);
    assert_eq!(b.byte_len, 44100);
    assert_eq!(b.created_at, 10);
    assert!(!b.shared);
    assert!(!b.archived);
}

#[test]
fn beat_update_rejects_non_owner() {
    let mut reg = Registry::new();
    producer(&mut reg, id(1), 2);
    producer(&mut reg, id(2), 7);
    assert_eq!(beat_create(&mut reg, id(1), simple_beat(b"mine"), 10), Ok(0));
    let mut args = BeatUpdateArgs::none();
    args.title = Some(b"stolen".to_vec());
    let r = beat_update(
        &mut reg,
        id(2),
        BeatUpdate { owner: id(1), beat_id: 0 },
        args,
        20,
    );
    assert_eq!(r, Err(OpError::Rejected(DimiError::Unauthorized)));
    // the record is unchanged, updated_at included
    let b = reg.get_beat(&id(1), 0).unwrap();
    assert_eq!(b.title, b"mine".to_vec());
    assert_eq!(b.updated_at, 10);
}

#[test]
fn beat_update_revalidates_budgets() {
    let mut reg = Registry::new();
    producer(&mut reg, id(1), 2);
    assert_eq!(beat_create(&mut reg, id(1), simple_beat(b"sized"), 10), Ok(0));
    let ctx = || BeatUpdate { owner: id(1), beat_id: 0 };
    let mut args = BeatUpdateArgs::none();
    args.title = Some(vec![b't'; 65]);
    assert_eq!(
        beat_update(&mut reg, id(1), ctx(), args, 20),
        Err(OpError::Rejected(DimiError::TitleTooLong))
    );
    let mut args = BeatUpdateArgs::none();
    args.tags = Some(vec![[0u8; 16]; 7]);
    assert_eq!(
        beat_update(&mut reg, id(1), ctx(), args, 20),
        Err(OpError::Rejected(DimiError::TooManyTags))
    );
    let mut args = BeatUpdateArgs::none();
    args.uri = Some(vec![b'u'; 201]);
    assert_eq!(
        beat_update(&mut reg, id(1), ctx(), args, 20),
        Err(OpError::Rejected(DimiError::UriTooLong))
    );
    let b = reg.get_beat(&id(1), 0).unwrap();
    assert_eq!(b.title, b"sized".to_vec());
    assert_eq!(b.updated_at, 10);
}

#[test]
fn archive_is_one_way_and_idempotent() {
    let mut reg = Registry::new();
    producer(&mut reg, id(1), 2);
    assert_eq!(beat_create(&mut reg, id(1), simple_beat(b"old"), 10), Ok(0));
    let ctx = || BeatOwner { owner: id(1), beat_id: 0 };
    assert_eq!(beat_archive(&mut reg, id(1), ctx(), 20), Ok(()));
    assert!(reg.get_beat(&id(1), 0).unwrap().archived);
    // a second archive succeeds and the flag stays set
    assert_eq!(beat_archive(&mut reg, id(1), ctx(), 30), Ok(()));
    let b = reg.get_beat(&id(1), 0).unwrap();
    assert!(b.archived);
    assert_eq!(b.updated_at, 30);
    // ownership still gates it
    assert_eq!(
        beat_archive(&mut reg, id(2), ctx(), 40),
        Err(OpError::Rejected(DimiError::Unauthorized))
    );
    // sharing stays toggleable while archived, in both directions
    assert_eq!(beat_toggle_shared(&mut reg, id(1), ctx(), true, 50), Ok(()));
    assert!(reg.get_beat(&id(1), 0).unwrap().shared);
    assert!(reg.get_beat(&id(1), 0).unwrap().archived);
    assert_eq!(beat_toggle_shared(&mut reg, id(1), ctx(), false, 60), Ok(()));
    assert!(!reg.get_beat(&id(1), 0).unwrap().shared);
    assert!(reg.get_beat(&id(1), 0).unwrap().archived);
}

#[test]
fn track_create_needs_shared_or_owned_beat() {
    let mut reg = Registry::new();
    producer(&mut reg, id(1), 2);
    // give the caller every role: none of them bypasses the sharing check
    producer(&mut reg, id(2), 7);
    assert_eq!(beat_create(&mut reg, id(1), simple_beat(b"private"), 10), Ok(0));
    let tc = || TrackCreate {
        beat_owner: id(1),
        beat_id: 0,
        take: 1,
        uri: b"take".to_vec(),
        content_hash: [0; 32],
        content_type: [0; 16],
        byte_len: 1,
    };
    assert_eq!(
        track_create(&mut reg, id(2), tc(), 20),
        Err(OpError::Rejected(DimiError::BeatNotShared))
    );
    // ... and regardless of role: a caller without the artist bit gets the
    // same answer, not Unauthorized
    producer(&mut reg, id(3), 2);
    assert_eq!(
        track_create(&mut reg, id(3), tc(), 20),
        Err(OpError::Rejected(DimiError::BeatNotShared))
    );
    // the owner may record against an unshared beat, with the artist role
    set_roles_as_admin(&mut reg, id(1), 2 | 4);
    assert_eq!(track_create(&mut reg, id(1), tc_owner(), 20), Ok(()));
}

fn set_roles_as_admin(reg: &mut Registry, user: Identity, roles: u8) {
    let admin = id(9);
    if reg.get_config().is_none() {
        assert_eq!(init_config(reg, InitConfig { admin }), Ok(()));
    }
    assert_eq!(set_roles(reg, admin, SetRoles { user, roles }), Ok(()));
}

fn tc_owner() -> TrackCreate {
    TrackCreate {
        beat_owner: id(1),
        beat_id: 0,
        take: 1,
        uri: b"take".to_vec(),
        content_hash: [0; 32],
        content_type: [0; 16],
        byte_len: 1,
    }
}

#[test]
fn track_create_rejects_archived_beat_even_if_shared() {
    let mut reg = Registry::new();
    producer(&mut reg, id(1), 2);
    producer(&mut reg, id(2), 4);
    assert_eq!(beat_create(&mut reg, id(1), simple_beat(b"done"), 10), Ok(0));
    let ctx = || BeatOwner { owner: id(1), beat_id: 0 };
    assert_eq!(beat_toggle_shared(&mut reg, id(1), ctx(), true, 11), Ok(()));
    assert_eq!(beat_archive(&mut reg, id(1), ctx(), 12), Ok(()));
    let tc = TrackCreate {
        beat_owner: id(1),
        beat_id: 0,
        take: 1,
        uri: b"take".to_vec(),
        content_hash: [0; 32],
        content_type: [0; 16],
        byte_len: 1,
    };
    assert_eq!(
        track_create(&mut reg, id(2), tc, 20),
        Err(OpError::Rejected(DimiError::BeatArchived))
    );
}

#[test]
fn track_create_checks_role_uri_and_duplicates() {
    let mut reg = Registry::new();
    producer(&mut reg, id(1), 2);
    producer(&mut reg, id(2), 2); // producer but not artist
    assert_eq!(beat_create(&mut reg, id(1), simple_beat(b"open"), 10), Ok(0));
    assert_eq!(
        beat_toggle_shared(&mut reg, id(1), BeatOwner { owner: id(1), beat_id: 0 }, true, 11),
        Ok(())
    );
    let tc = |take: u16, uri: Vec<u8>| TrackCreate {
        beat_owner: id(1),
        beat_id: 0,
        take,
        uri,
        content_hash: [3; 32],
        content_type: [2; 16],
        byte_len: 9,
    };
    assert_eq!(
        track_create(&mut reg, id(2), tc(1, b"t".to_vec()), 20),
        Err(OpError::Rejected(DimiError::Unauthorized))
    );
    assert_eq!(
        track_create(&mut reg, id(3), tc(1, b"t".to_vec()), 20),
        Err(OpError::MissingRecord)
    );
    set_roles_as_admin(&mut reg, id(2), 4);
    assert_eq!(
        track_create(&mut reg, id(2), tc(1, vec![b'u'; 201]), 20),
        Err(OpError::Rejected(DimiError::UriTooLong))
    );
    assert_eq!(track_create(&mut reg, id(2), tc(1, vec![b'u'; 200]), 20), Ok(()));
    // a duplicate (beat, artist, take) finds the slot occupied
    assert_eq!(
        track_create(&mut reg, id(2), tc(1, b"again".to_vec()), 21),
        Err(OpError::SlotOccupied)
    );
    // another take is another slot
    assert_eq!(track_create(&mut reg, id(2), tc(2, b"next".to_vec()), 22), Ok(()));
    let t = reg.get_track(&id(1), 0, &id(2), 2).unwrap();
    assert_eq!(t.take, 2);
    assert_eq!(t.uri, b"next".to_vec());
    assert_eq!(t.byte_len, 9);
    assert_eq!(t.created_at, 22);
    // a missing beat is reported as missing
    assert_eq!(
        track_create(
            &mut reg,
            id(2),
            TrackCreate { beat_id: 5, ..tc(3, b"t".to_vec()) },
            23
        ),
        Err(OpError::MissingRecord)
    );
}

#[test]
fn track_delete_is_artist_only() {
    let mut reg = Registry::new();
    producer(&mut reg, id(1), 2 | 4);
    assert_eq!(beat_create(&mut reg, id(1), simple_beat(b"base"), 10), Ok(0));
    assert_eq!(track_create(&mut reg, id(1), tc_owner(), 11), Ok(()));
    let td = || TrackDelete { beat_owner: id(1), beat_id: 0, artist: id(1), take: 1 };
    // identity mismatch is rejected before anything is touched
    assert_eq!(
        track_delete(&mut reg, id(2), td()),
        Err(OpError::Rejected(DimiError::Unauthorized))
    );
    assert!(reg.get_track(&id(1), 0, &id(1), 1).is_some());
    assert_eq!(track_delete(&mut reg, id(1), td()), Ok(()));
    assert!(reg.get_track(&id(1), 0, &id(1), 1).is_none());
    // deleting an absent track reports a missing record
    assert_eq!(track_delete(&mut reg, id(1), td()), Err(OpError::MissingRecord));
}
