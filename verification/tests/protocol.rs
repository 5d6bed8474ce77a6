use mmo_net::protocol::{
    ShardMessage, Vec2Bits, TAG_GHOST_UPDATE, TAG_HANDOFF_ACCEPT, TAG_HANDOFF_COMPLETE,
    TAG_HANDOFF_REJECT, TAG_HANDOFF_REQUEST,
};

fn v(x: f32, y: f32) -> Vec2Bits {
    Vec2Bits { x: x.to_bits(), y: y.to_bits() }
}

#[test]
fn handoff_accept_bytes() {
    let m = ShardMessage::HandoffAccept { entity_id: 0x0403_0201 };
    assert_eq!(m.serialize(), vec![TAG_HANDOFF_ACCEPT, 1, 2, 3, 4]);
}

#[test]
fn reject_and_complete_bytes() {
    assert_eq!(
        ShardMessage::HandoffReject { entity_id: 7 }.serialize(),
        vec![TAG_HANDOFF_REJECT, 7, 0, 0, 0]
    );
    assert_eq!(
        ShardMessage::HandoffComplete { entity_id: 256 }.serialize(),
        vec![TAG_HANDOFF_COMPLETE, 0, 1, 0, 0]
    );
}

#[test]
fn ghost_update_layout() {
    let m = ShardMessage::GhostUpdate { entity_id: 9, pos: v(1.0, -2.5), vel: v(0.5, 0.0) };
    let b = m.serialize();
    assert_eq!(b.len(), 21);
    assert_eq!(b[0], TAG_GHOST_UPDATE);
    assert_eq!(&b[1..5], &9u32.to_le_bytes());
    assert_eq!(&b[5..9], &1.0f32.to_le_bytes());
    assert_eq!(&b[9..13], &(-2.5f32).to_le_bytes());
    assert_eq!(&b[13..17], &0.5f32.to_le_bytes());
    assert_eq!(&b[17..21], &0.0f32.to_le_bytes());
}

#[test]
fn handoff_request_layout_and_roundtrip() {
    let mut state = [0u8; 64];
    for (i, s) in state.iter_mut().enumerate() {
        *s = i as u8;
    }
    let m = ShardMessage::HandoffRequest { entity_id: 42, pos: v(10.0, 20.0), vel: v(-1.0, 1.0), state };
    let b = m.serialize();
    assert_eq!(b.len(), 85);
    assert_eq!(b[0], TAG_HANDOFF_REQUEST);
    assert_eq!(&b[21..85], &state[..]);
    assert_eq!(ShardMessage::deserialize(&b), Some(m));
}

#[test]
fn roundtrip_every_variant_with_trailing_bytes() {
    let msgs = vec![
        ShardMessage::HandoffRequest { entity_id: 1, pos: v(1.0, 2.0), vel: v(3.0, 4.0), state: [0xAB; 64] },
        ShardMessage::HandoffAccept { entity_id: 2 },
        ShardMessage::HandoffReject { entity_id: 3 },
        ShardMessage::GhostUpdate { entity_id: 4, pos: v(5.0, 6.0), vel: v(7.0, 8.0) },
        ShardMessage::HandoffComplete { entity_id: u32::MAX },
    ];
    for m in msgs {
        let mut b = m.serialize();
        assert_eq!(ShardMessage::deserialize(&b), Some(m));
        b.extend_from_slice(&[9, 9, 9]);
        assert_eq!(ShardMessage::deserialize(&b), Some(m));
    }
}

#[test]
fn deserialize_rejects_short_empty_and_unknown() {
    assert_eq!(ShardMessage::deserialize(&[]), None);
    assert_eq!(ShardMessage::deserialize(&[TAG_HANDOFF_ACCEPT, 1, 2, 3]), None);
    assert_eq!(ShardMessage::deserialize(&[TAG_GHOST_UPDATE; 20]), None);
    assert_eq!(ShardMessage::deserialize(&[TAG_HANDOFF_REQUEST; 84]), None);
    assert_eq!(ShardMessage::deserialize(&[0x25, 0, 0, 0, 0]), None);
    assert_eq!(ShardMessage::deserialize(&[0x10, 0, 0, 0, 0]), None);
}

#[test]
fn deserialize_reads_little_endian_fields() {
    let mut b = vec![TAG_GHOST_UPDATE, 0x78, 0x56, 0x34, 0x12];
    b.extend_from_slice(&3.5f32.to_le_bytes());
    b.extend_from_slice(&(-0.25f32).to_le_bytes());
    b.extend_from_slice(&100.0f32.to_le_bytes());
    b.extend_from_slice(&0.0f32.to_le_bytes());
    match ShardMessage::deserialize(&b) {
        Some(ShardMessage::GhostUpdate { entity_id, pos, vel }) => {
            assert_eq!(entity_id, 0x1234_5678);
            assert_eq!(f32::from_bits(pos.x), 3.5);
            assert_eq!(f32::from_bits(pos.y), -0.25);
            assert_eq!(f32::from_bits(vel.x), 100.0);
            assert_eq!(f32::from_bits(vel.y), 0.0);
        }
        other => panic!("unexpected {:?}", other),
    }
}
