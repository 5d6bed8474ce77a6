use mmo_net::game_server::{
    begin_handoff, ghost_update_for, react_to_shard_message, AuthorityReaction, AuthorityState,
    JoinOutcome, PeerAddr, PlayerRegistry, ServerConfig,
};
use mmo_net::protocol::{ShardMessage, Vec2Bits};

fn addr(port: u16) -> PeerAddr {
    PeerAddr { is_v6: false, ip: 0x7f00_0001, port, flowinfo: 0, scope_id: 0 }
}

#[test]
fn join_welcomes_until_full() {
    let mut r = PlayerRegistry::new();
    match r.accept_join(b"JOIN me", addr(1), 2, "p1".to_string()) {
        JoinOutcome::Welcome { player_id, response } => {
            assert_eq!(player_id, "p1");
            assert_eq!(response, "WELCOME p1");
        }
        _ => panic!("expected a welcome"),
    }
    assert!(matches!(r.accept_join(b"JOIN", addr(2), 2, "p2".to_string()), JoinOutcome::Welcome { .. }));
    assert_eq!(r.len(), 2);
    assert!(matches!(r.accept_join(b"JOIN", addr(3), 2, "p3".to_string()), JoinOutcome::ServerFull));
    assert_eq!(r.len(), 2);
}

#[test]
fn non_join_datagrams_are_ignored() {
    let mut r = PlayerRegistry::new();
    assert!(matches!(r.accept_join(b"JOI", addr(1), 5, "p".to_string()), JoinOutcome::NotAJoin));
    assert!(matches!(r.accept_join(b"join", addr(1), 5, "p".to_string()), JoinOutcome::NotAJoin));
    assert!(matches!(r.accept_join(&[0xff, b'J', b'O', b'I', b'N'], addr(1), 5, "p".to_string()), JoinOutcome::NotAJoin));
    assert_eq!(r.len(), 0);
}

#[test]
fn rejoin_from_same_address_keeps_count() {
    let mut r = PlayerRegistry::new();
    r.accept_join(b"JOIN", addr(1), 5, "a".to_string());
    r.accept_join(b"JOIN again", addr(1), 5, "b".to_string());
    assert_eq!(r.len(), 1);
}

#[test]
fn receive_packet_gives_uuid() {
    let mut r = PlayerRegistry::new();
    match r.receive_packet(b"JOIN", addr(9), 10) {
        JoinOutcome::Welcome { player_id, response } => {
            assert_eq!(player_id.len(), 36);
            assert_eq!(response, format!("WELCOME {}", player_id));
        }
        _ => panic!("expected a welcome"),
    }
    assert!(matches!(r.receive_packet(b"PING", addr(9), 10), JoinOutcome::NotAJoin));
}

#[test]
fn heartbeat_of_server() {
    let config = ServerConfig::new(7001, addr(4000));
    assert_eq!(config.id.len(), 36);
    assert_eq!(config.zone, "zone_A");
    assert_eq!(config.max_players, 10);
    let mut r = PlayerRegistry::new();
    r.accept_join(b"JOIN", addr(1), 10, "a".to_string());
    let hb = config.make_heartbeat(&r);
    assert_eq!(hb.id, config.id);
    assert_eq!(hb.ip, "127.0.0.1");
    assert_eq!(hb.port, 7001);
    assert_eq!(hb.player_count, 1);
    assert_eq!(hb.max_players, 10);
}

fn v(x: u32) -> Vec2Bits {
    Vec2Bits { x, y: x + 1 }
}

#[test]
fn handoff_starts_only_when_owned() {
    let (s, m) = begin_handoff(AuthorityState::Owned, 4, v(1), v(2), 9).unwrap();
    assert_eq!(s, AuthorityState::PendingHandoff { target_shard: 9 });
    assert_eq!(m, ShardMessage::HandoffRequest { entity_id: 4, pos: v(1), vel: v(2), state: [0; 64] });
    assert!(begin_handoff(AuthorityState::PendingHandoff { target_shard: 1 }, 4, v(1), v(2), 9).is_none());
    assert!(begin_handoff(AuthorityState::GhostOf { source_shard: 1 }, 4, v(1), v(2), 9).is_none());
}

#[test]
fn ghost_updates_while_pending() {
    assert_eq!(
        ghost_update_for(AuthorityState::PendingHandoff { target_shard: 3 }, 4, v(1), v(2)),
        Some((3, ShardMessage::GhostUpdate { entity_id: 4, pos: v(1), vel: v(2) }))
    );
    assert_eq!(ghost_update_for(AuthorityState::Owned, 4, v(1), v(2)), None);
}

#[test]
fn reactions_to_neighbour_messages() {
    match react_to_shard_message(&ShardMessage::HandoffRequest { entity_id: 8, pos: v(1), vel: v(2), state: [0; 64] }, None) {
        AuthorityReaction::SpawnGhost { reply, entity_id, state, .. } => {
            assert_eq!(reply, ShardMessage::HandoffAccept { entity_id: 8 });
            assert_eq!(entity_id, 8);
            assert_eq!(state, AuthorityState::GhostOf { source_shard: 0 });
        }
        _ => panic!("expected a ghost"),
    }
    assert!(matches!(react_to_shard_message(&ShardMessage::HandoffAccept { entity_id: 8 }, Some(AuthorityState::Owned)), AuthorityReaction::Nothing));
    assert!(matches!(
        react_to_shard_message(&ShardMessage::HandoffReject { entity_id: 8 }, Some(AuthorityState::PendingHandoff { target_shard: 2 })),
        AuthorityReaction::Reclaim { state: AuthorityState::Owned }
    ));
    assert!(matches!(react_to_shard_message(&ShardMessage::HandoffReject { entity_id: 8 }, None), AuthorityReaction::Nothing));
    assert!(matches!(
        react_to_shard_message(&ShardMessage::GhostUpdate { entity_id: 8, pos: v(5), vel: v(6) }, Some(AuthorityState::GhostOf { source_shard: 0 })),
        AuthorityReaction::ApplyGhostUpdate { .. }
    ));
    assert!(matches!(
        react_to_shard_message(&ShardMessage::GhostUpdate { entity_id: 8, pos: v(5), vel: v(6) }, Some(AuthorityState::Owned)),
        AuthorityReaction::Nothing
    ));
    assert!(matches!(
        react_to_shard_message(&ShardMessage::HandoffComplete { entity_id: 8 }, Some(AuthorityState::GhostOf { source_shard: 0 })),
        AuthorityReaction::TakeOwnership { state: AuthorityState::Owned }
    ));
    assert!(matches!(react_to_shard_message(&ShardMessage::HandoffComplete { entity_id: 8 }, None), AuthorityReaction::Nothing));
}
