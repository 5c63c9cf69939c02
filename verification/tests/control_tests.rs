use dwitch::cache::{decode_cache, encode_cache, load_cache, Cache};
use dwitch::control::{initiate_tap_table, process_vrf_action, SwitchState, TapOp};
use dwitch::tables::LearnEntry;
use dwitch::types::{Packet, Vrf, VrfAction};

fn vrf(id: u32, name: &str, members: &[u32]) -> Vrf {
    Vrf { id, name: name.to_string(), members: members.to_vec() }
}

fn create(state: &mut SwitchState, id: u32, name: &str, members: &[u32]) -> Vec<TapOp> {
    process_vrf_action(state, VrfAction::Create(vrf(id, name, members))).tap_ops
}

fn table_ids(state: &SwitchState) -> Vec<u32> {
    state.vrfs.iter().map(|v| v.id).collect()
}

#[test]
fn tap_exists_iff_member_across_a_sequence() {
    let mut s = SwitchState::new(5);
    create(&mut s, 1, "a", &[5, 6]);
    create(&mut s, 2, "b", &[6]);
    create(&mut s, 3, "c", &[5]);
    assert_eq!(s.taps, vec![1, 3]);

    process_vrf_action(&mut s, VrfAction::AddMember { id: 2, members: vec![5] });
    assert!(s.taps.contains(&2));

    process_vrf_action(&mut s, VrfAction::RemoveMember { id: 1, members: vec![5] });
    assert!(!s.taps.contains(&1));

    process_vrf_action(&mut s, VrfAction::Delete { id: 3 });
    assert!(!s.taps.contains(&3));

    // The invariant: a worker exactly when the VRF exists with 5 among
    // its members.
    for v in &s.vrfs {
        assert_eq!(s.taps.contains(&v.id), v.members.contains(&5));
    }
}

#[test]
fn create_is_idempotent() {
    let mut once = SwitchState::new(1);
    create(&mut once, 7, "x", &[1, 3]);
    let mut twice = SwitchState::new(1);
    create(&mut twice, 7, "x", &[1, 3]);
    create(&mut twice, 7, "x", &[1, 3]);
    assert_eq!(table_ids(&once), table_ids(&twice));
    assert_eq!(once.taps, twice.taps);
    assert_eq!(once.vrfs[0].members, twice.vrfs[0].members);
}

#[test]
fn delete_is_idempotent() {
    let mut s = SwitchState::new(1);
    create(&mut s, 7, "x", &[1]);
    process_vrf_action(&mut s, VrfAction::Delete { id: 7 });
    let ids_once = table_ids(&s);
    let taps_once = s.taps.clone();
    process_vrf_action(&mut s, VrfAction::Delete { id: 7 });
    assert_eq!(table_ids(&s), ids_once);
    assert_eq!(s.taps, taps_once);
}

#[test]
fn member_changes_are_idempotent() {
    let mut s = SwitchState::new(1);
    create(&mut s, 7, "x", &[2]);
    process_vrf_action(&mut s, VrfAction::AddMember { id: 7, members: vec![1, 4] });
    let members_once = s.vrfs[0].members.clone();
    let taps_once = s.taps.clone();
    process_vrf_action(&mut s, VrfAction::AddMember { id: 7, members: vec![1, 4] });
    assert_eq!(s.vrfs[0].members, members_once);
    assert_eq!(s.taps, taps_once);

    process_vrf_action(&mut s, VrfAction::RemoveMember { id: 7, members: vec![4] });
    let members_after = s.vrfs[0].members.clone();
    process_vrf_action(&mut s, VrfAction::RemoveMember { id: 7, members: vec![4] });
    assert_eq!(s.vrfs[0].members, members_after);
}

#[test]
fn duplicate_name_is_dropped() {
    let mut s = SwitchState::new(9);
    create(&mut s, 1, "a", &[]);
    create(&mut s, 2, "a", &[]);
    assert_eq!(table_ids(&s), vec![1]);
}

#[test]
fn duplicate_id_is_dropped() {
    let mut s = SwitchState::new(9);
    create(&mut s, 1, "a", &[]);
    create(&mut s, 1, "b", &[]);
    assert_eq!(s.vrfs.len(), 1);
    assert_eq!(s.vrfs[0].name, "a");
}

#[test]
fn list_chunks_23_vrfs_into_10_10_3_plus_terminator() {
    let mut s = SwitchState::new(1);
    for i in 0..23u32 {
        create(&mut s, i + 1, &format!("v{}", i + 1), &[]);
    }
    let effects = process_vrf_action(&mut s, VrfAction::List(None));
    let sizes: Vec<usize> = effects
        .replies
        .iter()
        .map(|p| match p {
            Packet::VrfAction(VrfAction::List(Some(chunk))) => chunk.len(),
            _ => panic!("a List reply holds only List(Some(..)) packets"),
        })
        .collect();
    assert_eq!(sizes, vec![10, 10, 3, 0]);
}

#[test]
fn list_reply_returns_every_vrf_exactly_once() {
    let mut s = SwitchState::new(1);
    for i in 0..23u32 {
        create(&mut s, i + 1, &format!("v{}", i + 1), &[]);
    }
    let effects = process_vrf_action(&mut s, VrfAction::List(None));
    let mut collected: Vec<Vrf> = Vec::new();
    let mut done = false;
    for p in effects.replies {
        assert!(!done, "nothing follows the empty-chunk terminator");
        done = dwitch::cli::list_collect_step(&mut collected, p);
    }
    assert!(done);
    let mut ids: Vec<u32> = collected.iter().map(|v| v.id).collect();
    ids.sort();
    assert_eq!(ids, (1..=23).collect::<Vec<u32>>());
}

#[test]
fn empty_table_lists_as_bare_terminator() {
    let mut s = SwitchState::new(1);
    let effects = process_vrf_action(&mut s, VrfAction::List(None));
    assert_eq!(effects.replies.len(), 1);
    match &effects.replies[0] {
        Packet::VrfAction(VrfAction::List(Some(chunk))) => assert!(chunk.is_empty()),
        _ => panic!("wrong terminator"),
    }
}

#[test]
fn create_for_member_emits_tap_create() {
    let mut s = SwitchState::new(5);
    let ops = create(&mut s, 9, "x", &[5, 6]);
    assert_eq!(ops.len(), 1);
    match &ops[0] {
        TapOp::Create(v) => assert_eq!((v.id, v.name.as_str()), (9, "x")),
        _ => panic!("expected a create"),
    }
    let ops = create(&mut s, 10, "y", &[6]);
    assert!(ops.is_empty());
}

#[test]
fn member_removal_of_self_tears_the_tap_down() {
    let mut s = SwitchState::new(5);
    create(&mut s, 9, "x", &[5, 6]);
    assert!(s.taps.contains(&9));
    let effects = process_vrf_action(&mut s, VrfAction::RemoveMember { id: 9, members: vec![5] });
    assert_eq!(s.vrfs[0].members, vec![6]);
    assert!(!s.taps.contains(&9));
    assert!(effects.tap_ops.iter().any(|op| matches!(op, TapOp::Destroy(9))));
}

#[test]
fn cache_round_trip_preserves_both_tables() {
    let cache = Cache {
        switch_table: vec![
            LearnEntry { vrf_id: 7, mac: [1, 2, 3, 4, 5, 6], origin: 3 },
            LearnEntry { vrf_id: 7, mac: [6, 5, 4, 3, 2, 1], origin: 1 },
        ],
        vrf_table: vec![vrf(7, "x", &[1, 3])],
    };
    let bytes = encode_cache(&cache);
    let back = decode_cache(&bytes).expect("a cache must decode from its own encoding");
    assert_eq!(back.switch_table.len(), 2);
    assert_eq!(back.switch_table[0].vrf_id, 7);
    assert_eq!(back.switch_table[0].mac, [1, 2, 3, 4, 5, 6]);
    assert_eq!(back.switch_table[0].origin, 3);
    assert_eq!(back.vrf_table.len(), 1);
    assert_eq!(back.vrf_table[0].id, 7);
    assert_eq!(back.vrf_table[0].name, "x");
    assert_eq!(back.vrf_table[0].members, vec![1, 3]);
}

#[test]
fn restart_from_cache_restores_table_and_tap() {
    let cache = Cache {
        switch_table: Vec::new(),
        vrf_table: vec![vrf(7, "x", &[1, 3])],
    };
    let bytes = encode_cache(&cache);
    let loaded = load_cache(&bytes);
    let s = SwitchState::from_cache(1, loaded);
    assert_eq!(s.vrfs.len(), 1);
    assert_eq!(s.vrfs[0].id, 7);
    assert_eq!(s.vrfs[0].name, "x");
    assert_eq!(s.vrfs[0].members, vec![1, 3]);
    // Local id 1 is a member of VRF 7, so its worker is recorded.
    assert_eq!(s.taps, vec![7]);
}

#[test]
fn corrupt_cache_loads_as_empty() {
    let empty = load_cache(&[0xDE, 0xAD]);
    assert!(empty.vrf_table.is_empty());
    assert!(empty.switch_table.is_empty());

    // Decodes, but with a duplicate VRF name: also treated as corrupt.
    let bad = Cache {
        switch_table: Vec::new(),
        vrf_table: vec![vrf(1, "a", &[]), vrf(2, "a", &[])],
    };
    let bytes = encode_cache(&bad);
    let loaded = load_cache(&bytes);
    assert!(loaded.vrf_table.is_empty());
}

#[test]
fn exactly_ten_vrfs_list_as_one_full_chunk() {
    let mut s = SwitchState::new(1);
    for i in 0..10u32 {
        create(&mut s, i + 1, &format!("v{}", i + 1), &[]);
    }
    let effects = process_vrf_action(&mut s, VrfAction::List(None));
    let sizes: Vec<usize> = effects
        .replies
        .iter()
        .map(|p| match p {
            Packet::VrfAction(VrfAction::List(Some(chunk))) => chunk.len(),
            _ => panic!("a List reply holds only List(Some(..)) packets"),
        })
        .collect();
    assert_eq!(sizes, vec![10, 0]);
}

#[test]
fn duplicate_members_in_one_request_are_added_once() {
    let mut s = SwitchState::new(1);
    create(&mut s, 7, "x", &[9]);
    process_vrf_action(&mut s, VrfAction::AddMember { id: 7, members: vec![4, 4, 4] });
    assert_eq!(s.vrfs[0].members, vec![9, 4]);
}

#[test]
fn member_changes_on_an_unknown_vrf_are_ignored() {
    let mut s = SwitchState::new(1);
    create(&mut s, 7, "x", &[9]);
    process_vrf_action(&mut s, VrfAction::AddMember { id: 8, members: vec![1] });
    process_vrf_action(&mut s, VrfAction::RemoveMember { id: 8, members: vec![9] });
    assert_eq!(s.vrfs.len(), 1);
    assert_eq!(s.vrfs[0].members, vec![9]);
}

#[test]
fn create_stores_members_as_a_set_without_the_reserved_id() {
    let mut s = SwitchState::new(9);
    create(&mut s, 1, "a", &[0, 2, 2, 3, 0, 3]);
    assert_eq!(s.vrfs[0].members, vec![2, 3]);
}

#[test]
fn add_member_never_admits_the_reserved_id() {
    let mut s = SwitchState::new(9);
    create(&mut s, 1, "a", &[2]);
    process_vrf_action(&mut s, VrfAction::AddMember { id: 1, members: vec![0, 3] });
    assert_eq!(s.vrfs[0].members, vec![2, 3]);
}

#[test]
fn repeated_add_member_creates_one_worker_only() {
    let mut s = SwitchState::new(5);
    create(&mut s, 9, "x", &[6]);
    let effects = process_vrf_action(&mut s, VrfAction::AddMember { id: 9, members: vec![5] });
    assert_eq!(effects.tap_ops.len(), 1);
    assert!(matches!(effects.tap_ops[0], TapOp::Create(_)));
    // The worker already runs: a second join must not disrupt it.
    let effects = process_vrf_action(&mut s, VrfAction::AddMember { id: 9, members: vec![5] });
    assert!(effects.tap_ops.is_empty());
    assert_eq!(s.taps, vec![9]);
}

#[test]
fn cached_table_with_reserved_member_loads_as_empty() {
    let bad = Cache {
        switch_table: Vec::new(),
        vrf_table: vec![vrf(1, "a", &[0, 2])],
    };
    let bytes = encode_cache(&bad);
    let loaded = load_cache(&bytes);
    assert!(loaded.vrf_table.is_empty());
}

#[test]
fn initiate_tap_table_picks_member_vrfs() {
    let table = vec![vrf(1, "a", &[5]), vrf(2, "b", &[6]), vrf(3, "c", &[6, 5])];
    assert_eq!(initiate_tap_table(5, &table), vec![1, 3]);
    assert_eq!(initiate_tap_table(7, &table), Vec::<u32>::new());
}
