use mmo_net::broker::{
    subscribe_packet, unsubscribe_packet, BrokerOutcome, BrokerServer, TAG_BROADCAST, TAG_INPUT,
    TAG_PUBLISH,
};
use mmo_net::topic::shard_topic;

fn publish_packet(shard: u32, payload: &[u8]) -> Vec<u8> {
    let mut p = vec![TAG_PUBLISH];
    p.extend_from_slice(&shard_topic(shard));
    p.extend_from_slice(&(payload.len() as u16).to_le_bytes());
    p.extend_from_slice(payload);
    p
}

fn input_packet(client: u32) -> Vec<u8> {
    let mut p = vec![TAG_INPUT];
    p.extend_from_slice(&client.to_le_bytes());
    p.extend_from_slice(&[0u8; 16]);
    p
}

fn recipients(out: BrokerOutcome) -> (Vec<u64>, Vec<u8>) {
    match out {
        BrokerOutcome::Broadcast { mut recipients, message } => {
            recipients.sort();
            (recipients, message)
        }
        _ => panic!("expected a broadcast"),
    }
}

#[test]
fn subscribe_packet_layout() {
    let p = subscribe_packet(0x0102_0304, 5);
    assert_eq!(p.len(), 37);
    assert_eq!(p[0], 0x01);
    assert_eq!(&p[1..5], &[4, 3, 2, 1]);
    assert_eq!(&p[5..12], b"shard:5");
    assert!(p[12..].iter().all(|b| *b == 0));
    let u = unsubscribe_packet(1, 5);
    assert_eq!(u[0], 0x02);
    assert_eq!(&u[1..], &subscribe_packet(1, 5)[1..]);
}

#[test]
fn publish_reaches_subscribers_only() {
    let mut b = BrokerServer::new();
    assert!(matches!(b.handle_packet(10, &subscribe_packet(1, 0)), BrokerOutcome::Subscribed));
    assert!(matches!(b.handle_packet(11, &subscribe_packet(2, 0)), BrokerOutcome::Subscribed));
    assert!(matches!(b.handle_packet(12, &subscribe_packet(3, 1)), BrokerOutcome::Subscribed));
    // subscribing twice lists the connection once
    assert!(matches!(b.handle_packet(10, &subscribe_packet(1, 0)), BrokerOutcome::Subscribed));
    let (to, msg) = recipients(b.handle_packet(99, &publish_packet(0, b"hello")));
    assert_eq!(to, vec![10, 11]);
    assert_eq!(msg, vec![TAG_BROADCAST, 5, 0, b'h', b'e', b'l', b'l', b'o']);
    let (to, _) = recipients(b.handle_packet(99, &publish_packet(1, b"")));
    assert_eq!(to, vec![12]);
    let (to, msg) = recipients(b.handle_packet(99, &publish_packet(7, b"x")));
    assert!(to.is_empty());
    assert_eq!(msg, vec![TAG_BROADCAST, 1, 0, b'x']);
}

#[test]
fn unsubscribe_undoes_subscribe() {
    let mut b = BrokerServer::new();
    b.handle_packet(10, &subscribe_packet(1, 0));
    b.handle_packet(11, &subscribe_packet(2, 0));
    assert!(matches!(b.handle_packet(10, &unsubscribe_packet(1, 0)), BrokerOutcome::Unsubscribed));
    let (to, _) = recipients(b.handle_packet(99, &publish_packet(0, b"p")));
    assert_eq!(to, vec![11]);
    // unknown client: nothing changes
    assert!(matches!(b.handle_packet(10, &unsubscribe_packet(77, 0)), BrokerOutcome::Unsubscribed));
    let (to, _) = recipients(b.handle_packet(99, &publish_packet(0, b"p")));
    assert_eq!(to, vec![11]);
    b.handle_packet(11, &unsubscribe_packet(2, 0));
    let (to, _) = recipients(b.handle_packet(99, &publish_packet(0, b"p")));
    assert!(to.is_empty());
}

#[test]
fn short_empty_and_unknown_packets() {
    let mut b = BrokerServer::new();
    assert!(matches!(b.handle_packet(1, &[]), BrokerOutcome::Ignored));
    assert!(matches!(b.handle_packet(1, &subscribe_packet(1, 0)[..36]), BrokerOutcome::Ignored));
    assert!(matches!(b.handle_packet(1, &publish_packet(0, b"")[..34]), BrokerOutcome::Ignored));
    let mut truncated = publish_packet(0, b"abc");
    truncated.pop();
    assert!(matches!(b.handle_packet(1, &truncated), BrokerOutcome::Ignored));
    assert!(matches!(b.handle_packet(1, &input_packet(1)[..20]), BrokerOutcome::Ignored));
    assert!(matches!(b.handle_packet(1, &[0x09, 1, 2]), BrokerOutcome::UnknownTag { tag: 0x09 }));
}

#[test]
fn input_routing() {
    let mut b = BrokerServer::new();
    // unknown client
    assert!(matches!(
        b.handle_packet(10, &input_packet(1)),
        BrokerOutcome::NoShardRoute { client_id: 1 }
    ));
    b.handle_packet(10, &subscribe_packet(1, 3));
    assert_eq!(b.get_shard_conn_for_client(1), None);
    b.shard_routing.insert(3, 500);
    assert_eq!(b.get_shard_conn_for_client(1), Some(500));
    let pkt = input_packet(1);
    match b.handle_packet(10, &pkt) {
        BrokerOutcome::Forward { shard_conn, message } => {
            assert_eq!(shard_conn, 500);
            assert_eq!(message, pkt);
        }
        _ => panic!("expected a forward"),
    }
}

#[test]
fn extract_shard_id_method() {
    let b = BrokerServer::new();
    assert_eq!(b.extract_shard_id_from_topic(&shard_topic(42)), 42);
}

#[test]
fn disconnect_forgets_connection() {
    let mut b = BrokerServer::new();
    b.handle_packet(10, &subscribe_packet(1, 0));
    b.handle_packet(11, &subscribe_packet(2, 0));
    b.shard_routing.insert(0, 10);
    b.disconnect(10);
    let (to, _) = recipients(b.handle_packet(99, &publish_packet(0, b"p")));
    assert_eq!(to, vec![11]);
    assert_eq!(b.client_routing.get(&1), None);
    assert_eq!(b.client_routing.get(&2), Some(&11));
    assert_eq!(b.shard_routing.get(&0), None);
}
