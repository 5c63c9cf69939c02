use dwitch::cli::{action_for, MemberCommand, VrfCommand, VrfIdArg};
use dwitch::control::SwitchState;
use dwitch::dataplane::{
    get_destination_mac, get_source_mac, handle_egress, handle_ingress, ForwardDecision,
};
use dwitch::netns::{list_from_entries, DirEntryInfo, Netns};
use dwitch::session::{
    client_step, server_handle_packet, SessionAction, SessionEvent, SessionState,
    PING_TIMEOUT_MS,
};
use dwitch::tables::LearnEntry;
use dwitch::types::{Data, Packet, Ping, Vrf, VrfAction, CONFIGURATION_SWITCH_ID};

fn vrf(id: u32, name: &str, members: &[u32]) -> Vrf {
    Vrf { id, name: name.to_string(), members: members.to_vec() }
}

fn frame(dst: [u8; 6], src: [u8; 6], payload: &[u8]) -> Vec<u8> {
    let mut f = Vec::new();
    f.extend_from_slice(&dst);
    f.extend_from_slice(&src);
    f.extend_from_slice(&[0x08, 0x00]);
    f.extend_from_slice(payload);
    f
}

const MAC_A: [u8; 6] = [0xAA; 6];
const MAC_B: [u8; 6] = [0xBB; 6];

#[test]
fn mac_extraction() {
    let f = frame(MAC_B, MAC_A, &[1, 2, 3]);
    assert_eq!(get_destination_mac(&f), MAC_B);
    assert_eq!(get_source_mac(&f), MAC_A);
}

#[test]
fn unknown_destination_floods_to_live_members() {
    let learned: Vec<LearnEntry> = Vec::new();
    let peers = vec![2, 3];
    let v = vrf(10, "v", &[1, 2, 3, 4]);
    let f = frame(MAC_B, MAC_A, &[0; 50]);
    match handle_egress(&learned, &peers, &v, &f) {
        Some(ForwardDecision::Flood(targets)) => assert_eq!(targets, vec![2, 3]),
        _ => panic!("an unknown destination floods"),
    }
}

#[test]
fn learned_destination_is_unicast_to_its_switch_only() {
    // A delivers a frame from MAC_A out of switch 1; B then sends to MAC_A.
    let mut learned: Vec<LearnEntry> = Vec::new();
    let f_in = frame(MAC_B, MAC_A, &[0; 50]);
    handle_ingress(&mut learned, 10, 1, &f_in);
    let peers = vec![1, 3];
    let v = vrf(10, "v", &[1, 2, 3]);
    let f_out = frame(MAC_A, MAC_B, &[0; 50]);
    match handle_egress(&learned, &peers, &v, &f_out) {
        Some(ForwardDecision::Unicast(s)) => assert_eq!(s, 1),
        _ => panic!("a learned destination is unicast"),
    }
}

#[test]
fn learning_overwrites_a_moved_mac() {
    let mut learned: Vec<LearnEntry> = Vec::new();
    let f = frame(MAC_B, MAC_A, &[0; 50]);
    handle_ingress(&mut learned, 10, 1, &f);
    handle_ingress(&mut learned, 10, 2, &f);
    let peers = vec![1, 2];
    let v = vrf(10, "v", &[1, 2]);
    let f_out = frame(MAC_A, MAC_B, &[0; 50]);
    match handle_egress(&learned, &peers, &v, &f_out) {
        Some(ForwardDecision::Unicast(s)) => assert_eq!(s, 2),
        _ => panic!("a learned destination is unicast"),
    }
}

#[test]
fn short_frames_are_dropped() {
    let learned: Vec<LearnEntry> = Vec::new();
    let v = vrf(10, "v", &[1]);
    assert!(handle_egress(&learned, &vec![1], &v, &[0u8; 13]).is_none());
}

#[test]
fn learned_switch_without_session_floods() {
    let mut learned: Vec<LearnEntry> = Vec::new();
    let f_in = frame(MAC_B, MAC_A, &[0; 50]);
    handle_ingress(&mut learned, 10, 9, &f_in);
    let peers = vec![2];
    let v = vrf(10, "v", &[2, 9]);
    let f_out = frame(MAC_A, MAC_B, &[0; 50]);
    match handle_egress(&learned, &peers, &v, &f_out) {
        Some(ForwardDecision::Flood(targets)) => assert_eq!(targets, vec![2]),
        _ => panic!("a dead learned switch falls back to flooding"),
    }
}

#[test]
fn session_registers_on_handshake_and_recovers_on_timeout() {
    let (s, acts) = client_step(SessionState::Connecting, SessionEvent::HandshakeOk(2), 1000);
    assert!(matches!(s, SessionState::Established { peer: 2, .. }));
    assert!(matches!(acts[..], [SessionAction::Register(2)]));

    let (s, acts) = client_step(s, SessionEvent::TimedOut, 1000 + PING_TIMEOUT_MS);
    assert!(matches!(s, SessionState::Connecting));
    assert!(matches!(acts[..], [SessionAction::Unregister(2)]));
}

#[test]
fn session_recovers_on_close_and_retries_after_connect_failure() {
    let (s, _) = client_step(SessionState::Connecting, SessionEvent::HandshakeOk(7), 0);
    let (s, acts) = client_step(s, SessionEvent::Closed, 50);
    assert!(matches!(s, SessionState::Connecting));
    assert!(matches!(acts[..], [SessionAction::Unregister(7)]));

    let (s, acts) = client_step(s, SessionEvent::ConnectFailed, 60);
    assert!(matches!(s, SessionState::Connecting));
    assert!(matches!(acts[..], [SessionAction::Wait(1000)]));
}

#[test]
fn ping_extends_the_deadline() {
    let (s, _) = client_step(SessionState::Connecting, SessionEvent::HandshakeOk(2), 0);
    let (s, acts) = client_step(s, SessionEvent::PingReceived, 5000);
    assert!(acts.is_empty());
    match s {
        SessionState::Established { peer, deadline } => {
            assert_eq!(peer, 2);
            assert_eq!(deadline, 5000 + PING_TIMEOUT_MS);
        }
        _ => panic!("a ping keeps the session established"),
    }
}

#[test]
fn operator_mutation_is_rebroadcast_to_every_peer() {
    let mut s = SwitchState::new(1);
    let peers = vec![2, 3, 7];
    let packet = Packet::VrfAction(VrfAction::Create(vrf(10, "v", &[1, 2])));
    let effects = server_handle_packet(&mut s, &peers, CONFIGURATION_SWITCH_ID, packet);
    match effects.broadcast {
        Some(Packet::VrfAction(VrfAction::Create(v))) => assert_eq!(v.id, 10),
        _ => panic!("an operator mutation is rebroadcast"),
    }
    assert_eq!(effects.broadcast_targets, peers);
    assert_eq!(s.vrfs.len(), 1);
}

#[test]
fn peer_mutation_and_operator_list_are_not_rebroadcast() {
    let mut s = SwitchState::new(1);
    let peers = vec![2, 3];
    let effects = server_handle_packet(
        &mut s,
        &peers,
        2,
        Packet::VrfAction(VrfAction::Create(vrf(10, "v", &[2]))),
    );
    assert!(effects.broadcast.is_none());
    assert!(effects.broadcast_targets.is_empty());

    let effects = server_handle_packet(
        &mut s,
        &peers,
        CONFIGURATION_SWITCH_ID,
        Packet::VrfAction(VrfAction::List(None)),
    );
    assert!(effects.broadcast.is_none());
    assert!(effects.broadcast_targets.is_empty());
    assert!(!effects.replies.is_empty());
}

#[test]
fn ping_is_echoed() {
    let mut s = SwitchState::new(1);
    let effects = server_handle_packet(&mut s, &vec![2], 2, Packet::Ping(Ping));
    assert_eq!(effects.replies.len(), 1);
    assert!(matches!(effects.replies[0], Packet::Ping(_)));
}

#[test]
fn data_goes_to_the_tap_worker_of_its_vrf() {
    let mut s = SwitchState::new(1);
    let peers = vec![2];
    server_handle_packet(
        &mut s,
        &peers,
        CONFIGURATION_SWITCH_ID,
        Packet::VrfAction(VrfAction::Create(vrf(10, "v", &[1, 2]))),
    );
    let f = frame(MAC_B, MAC_A, &[0; 40]);
    let effects = server_handle_packet(
        &mut s,
        &peers,
        2,
        Packet::Data(Data { vrf_id: 10, data: f.clone() }),
    );
    match effects.deliver {
        Some(d) => {
            assert_eq!(d.vrf_id, 10);
            assert_eq!(d.origin, 2);
            assert_eq!(d.data, f);
        }
        None => panic!("a member VRF has a worker to deliver to"),
    }
    let effects =
        server_handle_packet(&mut s, &peers, 2, Packet::Data(Data { vrf_id: 99, data: f }));
    assert!(effects.deliver.is_none());
}

#[test]
fn handshake_with_reserved_id_is_refused() {
    let (s, acts) = client_step(
        SessionState::Connecting,
        SessionEvent::HandshakeOk(CONFIGURATION_SWITCH_ID),
        100,
    );
    assert!(matches!(s, SessionState::Connecting));
    assert!(acts.is_empty());
}

#[test]
fn netns_paths_and_labels() {
    let ns = Netns::named("blue");
    assert_eq!(ns.path(), "/run/netns/blue");
    assert_eq!(ns.label(), "blue");
    assert_eq!(Netns::Default.path(), "/proc/1/ns/net");
    assert_eq!(Netns::Default.label(), "default");
}

#[test]
fn absent_namespace_is_not_present() {
    let ns = Netns::named("no-such-namespace-for-sure");
    assert!(!ns.present());
}

#[test]
fn namespace_listing_skips_dots_directories_and_the_host() {
    let entries = vec![
        DirEntryInfo { name: ".".to_string(), ino: 10, is_dir: false },
        DirEntryInfo { name: "..".to_string(), ino: 11, is_dir: false },
        DirEntryInfo { name: "blue".to_string(), ino: 12, is_dir: false },
        DirEntryInfo { name: "subdir".to_string(), ino: 13, is_dir: true },
        DirEntryInfo { name: "host".to_string(), ino: 42, is_dir: false },
    ];
    let listed = list_from_entries(entries, 42);
    assert_eq!(listed.len(), 2);
    assert!(matches!(listed[0], Netns::Default));
    match &listed[1] {
        Netns::Named(n) => assert_eq!(n, "blue"),
        _ => panic!("the bind mount is listed"),
    }
}

#[test]
fn commands_become_their_actions() {
    match action_for(VrfCommand::List, 0) {
        VrfAction::List(None) => {}
        _ => panic!("list sends List(None)"),
    }
    match action_for(
        VrfCommand::Create { id: 3, name: "n".to_string(), members: vec![1] },
        0,
    ) {
        VrfAction::Create(v) => assert_eq!((v.id, v.name.as_str()), (3, "n")),
        _ => panic!("create sends Create"),
    }
    let arg = VrfIdArg { id: Some(8), name: None };
    match action_for(VrfCommand::Delete { id: arg }, 8) {
        VrfAction::Delete { id } => assert_eq!(id, 8),
        _ => panic!("delete sends Delete"),
    }
    let arg = VrfIdArg { id: None, name: Some("x".to_string()) };
    match action_for(
        VrfCommand::Member { id: arg, command: MemberCommand::Add { members: vec![4] } },
        9,
    ) {
        VrfAction::AddMember { id, members } => {
            assert_eq!(id, 9);
            assert_eq!(members, vec![4]);
        }
        _ => panic!("member add sends AddMember"),
    }
}

#[test]
fn name_argument_resolves_through_the_listing() {
    let listed = vec![vrf(3, "blue", &[]), vrf(4, "red", &[])];
    let by_name = VrfIdArg { id: None, name: Some("red".to_string()) };
    assert_eq!(by_name.resolve(&listed), Some(4));
    let missing = VrfIdArg { id: None, name: Some("green".to_string()) };
    assert_eq!(missing.resolve(&listed), None);
    let by_id = VrfIdArg { id: Some(5), name: None };
    assert_eq!(by_id.resolve(&listed), Some(5));
}
