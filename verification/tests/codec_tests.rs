use dwitch::codec::{decode_packet, decode_switch_id, encode_packet, encode_switch_id};
use dwitch::types::{Data, Packet, Ping, Vrf, VrfAction};

fn vrf(id: u32, name: &str, members: &[u32]) -> Vrf {
    Vrf { id, name: name.to_string(), members: members.to_vec() }
}

fn roundtrip(p: &Packet) -> Packet {
    let bytes = encode_packet(p);
    decode_packet(&bytes).expect("a packet must decode from its own encoding")
}

#[test]
fn switch_id_round_trip() {
    for id in [0u32, 1, 7, 0xDEAD_BEEF, u32::MAX] {
        let bytes = encode_switch_id(id);
        assert_eq!(bytes.len(), 4);
        assert_eq!(decode_switch_id(&bytes), Some(id));
    }
}

#[test]
fn switch_id_matches_reference_serializer() {
    let id: u32 = 0xDEAD_BEEF;
    assert_eq!(encode_switch_id(id), bincode::serialize(&id).unwrap());
}

#[test]
fn u32_list_matches_reference_serializer() {
    // A Vrf encodes as id, length-prefixed name, then the member list.
    let v = vrf(3, "ab", &[1, 2, 9]);
    let p = Packet::VrfAction(VrfAction::Create(v));
    let bytes = encode_packet(&p);
    let reference: Vec<u8> = {
        let mut r = bincode::serialize(&1u32).unwrap(); // Packet tag
        r.extend(bincode::serialize(&1u32).unwrap()); // VrfAction tag
        r.extend(bincode::serialize(&3u32).unwrap()); // id
        r.extend(bincode::serialize(&String::from("ab")).unwrap());
        r.extend(bincode::serialize(&vec![1u32, 2, 9]).unwrap());
        r
    };
    assert_eq!(bytes, reference);
}

#[test]
fn ping_round_trip() {
    let p = roundtrip(&Packet::Ping(Ping));
    assert!(matches!(p, Packet::Ping(_)));
}

#[test]
fn ping_encoding_is_four_byte_tag() {
    assert_eq!(encode_packet(&Packet::Ping(Ping)), vec![0, 0, 0, 0]);
}

#[test]
fn data_round_trip() {
    let p = Packet::Data(Data { vrf_id: 42, data: vec![0xAA, 0, 0xFF, 7] });
    match roundtrip(&p) {
        Packet::Data(d) => {
            assert_eq!(d.vrf_id, 42);
            assert_eq!(d.data, vec![0xAA, 0, 0xFF, 7]);
        }
        _ => panic!("wrong variant"),
    }
}

#[test]
fn create_round_trip() {
    let p = Packet::VrfAction(VrfAction::Create(vrf(10, "v", &[1, 2])));
    match roundtrip(&p) {
        Packet::VrfAction(VrfAction::Create(v)) => {
            assert_eq!(v.id, 10);
            assert_eq!(v.name, "v");
            assert_eq!(v.members, vec![1, 2]);
        }
        _ => panic!("wrong variant"),
    }
}

#[test]
fn create_with_unicode_name_round_trip() {
    let p = Packet::VrfAction(VrfAction::Create(vrf(1, "r\u{e9}seau-\u{2603}", &[])));
    match roundtrip(&p) {
        Packet::VrfAction(VrfAction::Create(v)) => {
            assert_eq!(v.name, "r\u{e9}seau-\u{2603}");
        }
        _ => panic!("wrong variant"),
    }
}

#[test]
fn list_none_round_trip() {
    match roundtrip(&Packet::VrfAction(VrfAction::List(None))) {
        Packet::VrfAction(VrfAction::List(None)) => {}
        _ => panic!("wrong variant"),
    }
}

#[test]
fn list_some_round_trip() {
    let chunk = vec![vrf(1, "a", &[1]), vrf(2, "b", &[2, 3])];
    match roundtrip(&Packet::VrfAction(VrfAction::List(Some(chunk)))) {
        Packet::VrfAction(VrfAction::List(Some(vs))) => {
            assert_eq!(vs.len(), 2);
            assert_eq!(vs[0].id, 1);
            assert_eq!(vs[0].name, "a");
            assert_eq!(vs[1].members, vec![2, 3]);
        }
        _ => panic!("wrong variant"),
    }
}

#[test]
fn delete_and_member_actions_round_trip() {
    match roundtrip(&Packet::VrfAction(VrfAction::Delete { id: 9 })) {
        Packet::VrfAction(VrfAction::Delete { id }) => assert_eq!(id, 9),
        _ => panic!("wrong variant"),
    }
    match roundtrip(&Packet::VrfAction(VrfAction::AddMember { id: 4, members: vec![5, 6] })) {
        Packet::VrfAction(VrfAction::AddMember { id, members }) => {
            assert_eq!(id, 4);
            assert_eq!(members, vec![5, 6]);
        }
        _ => panic!("wrong variant"),
    }
    match roundtrip(&Packet::VrfAction(VrfAction::RemoveMember { id: 4, members: vec![5] })) {
        Packet::VrfAction(VrfAction::RemoveMember { id, members }) => {
            assert_eq!(id, 4);
            assert_eq!(members, vec![5]);
        }
        _ => panic!("wrong variant"),
    }
}

#[test]
fn trailing_bytes_are_ignored() {
    // One network read may deliver a packet padded with stale buffer bytes.
    let mut bytes = encode_packet(&Packet::VrfAction(VrfAction::Delete { id: 3 }));
    bytes.extend_from_slice(&[0u8; 64]);
    match decode_packet(&bytes) {
        Some(Packet::VrfAction(VrfAction::Delete { id })) => assert_eq!(id, 3),
        _ => panic!("decode must ignore trailing bytes"),
    }
}

#[test]
fn empty_buffer_does_not_decode() {
    assert!(decode_packet(&[]).is_none());
    assert!(decode_switch_id(&[1, 2]).is_none());
}

#[test]
fn unknown_tag_does_not_decode() {
    assert!(decode_packet(&[9, 0, 0, 0]).is_none());
    // Unknown VrfAction tag.
    assert!(decode_packet(&[1, 0, 0, 0, 9, 0, 0, 0]).is_none());
}

#[test]
fn truncated_packet_does_not_decode() {
    let bytes = encode_packet(&Packet::VrfAction(VrfAction::Create(vrf(10, "name", &[1, 2]))));
    assert!(decode_packet(&bytes[..bytes.len() - 1]).is_none());
    assert!(decode_packet(&bytes[..5]).is_none());
}

#[test]
fn invalid_utf8_name_does_not_decode() {
    // Create(Vrf) with a one-byte name 0xFF: not valid UTF-8.
    let mut bytes = Vec::new();
    bytes.extend_from_slice(&1u32.to_le_bytes()); // Packet tag
    bytes.extend_from_slice(&1u32.to_le_bytes()); // VrfAction tag
    bytes.extend_from_slice(&7u32.to_le_bytes()); // id
    bytes.extend_from_slice(&1u64.to_le_bytes()); // name length
    bytes.push(0xFF); // invalid UTF-8
    bytes.extend_from_slice(&0u64.to_le_bytes()); // no members
    assert!(decode_packet(&bytes).is_none());
}

#[test]
fn bad_option_discriminant_does_not_decode() {
    let mut bytes = Vec::new();
    bytes.extend_from_slice(&1u32.to_le_bytes()); // Packet tag
    bytes.extend_from_slice(&0u32.to_le_bytes()); // VrfAction::List tag
    bytes.push(2); // neither None nor Some
    assert!(decode_packet(&bytes).is_none());
}
