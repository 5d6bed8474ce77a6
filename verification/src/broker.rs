//! The publish/subscribe broker. Clients subscribe their connection to
//! topics; a publication on a topic is broadcast to every connection
//! subscribed to it; client input is routed to the connection of the shard
//! whose topic the client follows. Connections are known by their numeric
//! identifiers; sending is left to the caller, which receives what to send.

use vstd::prelude::*;
use std::collections::HashMap;
use vstd::bytes::{
    spec_u32_to_le_bytes, spec_u32_from_le_bytes, spec_u16_to_le_bytes, spec_u16_from_le_bytes,
    lemma_auto_spec_u32_to_from_le_bytes, lemma_auto_spec_u16_to_from_le_bytes, u32_from_le_bytes,
    u32_to_le_bytes, u16_from_le_bytes, u16_to_le_bytes,
};
use crate::topic::{
    pad_topic, shard_topic_text, shard_id_of_topic, shard_topic, shard_id_from_topic,
    law_shard_topic_roundtrip,
};
use crate::topic_table::{
    TopicTable, subscribers_of, subscribe_effect, unsubscribe_effect, drop_conn_effect,
};

verus! {

pub const TAG_SUBSCRIBE: u8 = 0x01;
pub const TAG_UNSUBSCRIBE: u8 = 0x02;
pub const TAG_PUBLISH: u8 = 0x03;
pub const TAG_BROADCAST: u8 = 0x04;
pub const TAG_INPUT: u8 = 0x05;

/// What a packet asks of the broker.
pub enum BrokerRequest {
    Subscribe { client_id: u32, topic: Seq<u8> },
    Unsubscribe { client_id: u32, topic: Seq<u8> },
    Publish { topic: Seq<u8>, payload: Seq<u8> },
    RouteInput { client_id: u32 },
    /// Empty, or too short for what its tag announces.
    Malformed,
    Unknown { tag: u8 },
}

/// The request a packet carries. Subscriptions are a tag, a client number
/// and a 32-byte topic; a publication is a tag, a 32-byte topic, a 16-bit
/// payload length and the payload; input is at least 21 bytes, starting with
/// the tag and the client number. Bytes past what a request needs are
/// ignored.
pub open spec fn decode_broker_packet(p: Seq<u8>) -> BrokerRequest {
    if p.len() == 0 {
        BrokerRequest::Malformed
    } else if p[0] == TAG_SUBSCRIBE || p[0] == TAG_UNSUBSCRIBE {
        if p.len() < 37 {
            BrokerRequest::Malformed
        } else {
            let client_id = spec_u32_from_le_bytes(p.subrange(1, 5));
            let topic = p.subrange(5, 37);
            if p[0] == TAG_SUBSCRIBE {
                BrokerRequest::Subscribe { client_id, topic }
            } else {
                BrokerRequest::Unsubscribe { client_id, topic }
            }
        }
    } else if p[0] == TAG_PUBLISH {
        if p.len() < 35 {
            BrokerRequest::Malformed
        } else {
            let n = spec_u16_from_le_bytes(p.subrange(33, 35));
            if p.len() < 35 + n {
                BrokerRequest::Malformed
            } else {
                BrokerRequest::Publish { topic: p.subrange(1, 33), payload: p.subrange(35, 35 + n) }
            }
        }
    } else if p[0] == TAG_INPUT {
        if p.len() < 21 {
            BrokerRequest::Malformed
        } else {
            BrokerRequest::RouteInput { client_id: spec_u32_from_le_bytes(p.subrange(1, 5)) }
        }
    } else {
        BrokerRequest::Unknown { tag: p[0] }
    }
}

/// What subscribers receive for a publication: the broadcast tag, the
/// payload's length and the payload.
pub open spec fn broadcast_message(payload: Seq<u8>) -> Seq<u8> {
    seq![TAG_BROADCAST] + spec_u16_to_le_bytes(payload.len() as u16) + payload
}

/// A broadcast frames its payload so that subscribers read it back: the
/// tag, then two bytes that read (little-endian) as the payload's length,
/// for every length up to `u16::MAX`, then the payload itself.
pub proof fn law_broadcast_frames_payload(payload: Seq<u8>)
    requires
        payload.len() <= u16::MAX,
    ensures
        broadcast_message(payload).len() == payload.len() + 3,
        broadcast_message(payload)[0] == TAG_BROADCAST,
        spec_u16_from_le_bytes(broadcast_message(payload).subrange(1, 3)) == payload.len(),
        broadcast_message(payload).subrange(3, payload.len() + 3int) == payload,
{
    lemma_auto_spec_u16_to_from_le_bytes();
    let m = broadcast_message(payload);
    let len_bytes = spec_u16_to_le_bytes(payload.len() as u16);
    assert(len_bytes.len() == 2);
    assert(m.subrange(1, 3) =~= len_bytes);
    assert(m.subrange(3, payload.len() + 3int) =~= payload);
}

pub open spec fn map_get<K, V>(m: Map<K, V>, k: K) -> Option<V> {
    if m.dom().contains(k) {
        Some(m[k])
    } else {
        None
    }
}

/// Where input of `client_id` may go: nowhere when the client has no known
/// connection or that connection follows no topic; otherwise to the shard
/// connection of a topic that the client's connection follows, or nowhere
/// if that shard has no known connection. (`BrokerServer::route_of` fixes
/// which topic, when the connection follows several.)
pub open spec fn shard_route(
    subs: Map<Seq<u8>, Set<u64>>,
    clients: Map<u32, u64>,
    shards: Map<u32, u64>,
    client_id: u32,
    r: Option<u64>,
) -> bool {
    match map_get(clients, client_id) {
        None => r is None,
        Some(c) => if exists|t: Seq<u8>| #[trigger] subs.dom().contains(t) && subs[t].contains(c) {
            exists|t: Seq<u8>|
                #[trigger] subs.dom().contains(t) && subs[t].contains(c) && r == map_get(
                    shards,
                    shard_id_of_topic(t),
                )
        } else {
            r is None
        },
    }
}

/// What the broker does about one packet.
pub enum BrokerOutcome {
    /// The packet was empty or too short, and changed nothing.
    Ignored,
    Subscribed,
    Unsubscribed,
    /// Send `message` to each of `recipients`.
    Broadcast { recipients: Vec<u64>, message: Vec<u8> },
    /// Send `message` to the shard connection `shard_conn`.
    Forward { shard_conn: u64, message: Vec<u8> },
    /// Input of a client for which no shard connection is known.
    NoShardRoute { client_id: u32 },
    UnknownTag { tag: u8 },
}

pub struct BrokerServer {
    /// For each topic, the connections subscribed to it.
    pub subscriptions: TopicTable,
    /// The connection of each client.
    pub client_routing: HashMap<u32, u64>,
    /// The connection of each shard.
    pub shard_routing: HashMap<u32, u64>,
}

impl BrokerServer {
    pub open spec fn route(self, client_id: u32, r: Option<u64>) -> bool {
        shard_route(
            self.subscriptions.map(),
            self.client_routing@,
            self.shard_routing@,
            client_id,
            r,
        )
    }

    /// The shard connection that input of `client_id` goes to: that of the
    /// shard named by the first topic, in the table's order, that the
    /// client's connection follows.
    pub open spec fn route_of(self, client_id: u32) -> Option<u64> {
        match map_get(self.client_routing@, client_id) {
            None => None,
            Some(c) => match self.subscriptions.first_topic_of(c) {
                None => None,
                Some(t) => map_get(self.shard_routing@, shard_id_of_topic(t)),
            },
        }
    }

    pub open spec fn unchanged(self, other: Self) -> bool {
        &&& self.subscriptions.map() == other.subscriptions.map()
        &&& self.client_routing@ == other.client_routing@
        &&& self.shard_routing@ == other.shard_routing@
    }

    /// A broker that knows no topic, client or shard.
    pub fn new() -> (b: Self)
        ensures
            b.subscriptions.map() == Map::<Seq<u8>, Set<u64>>::empty(),
            b.client_routing@ == Map::<u32, u64>::empty(),
            b.shard_routing@ == Map::<u32, u64>::empty(),
    {
        BrokerServer {
            subscriptions: TopicTable::new(),
            client_routing: HashMap::new(),
            shard_routing: HashMap::new(),
        }
    }

    /// Handles one packet received on `current_conn`.
    pub fn handle_packet(&mut self, current_conn: u64, packet: &[u8]) -> (out: BrokerOutcome)
        ensures
            final(self).shard_routing@ == old(self).shard_routing@,
            match decode_broker_packet(packet@) {
                BrokerRequest::Subscribe { client_id, topic } => {
                    &&& final(self).client_routing@ == old(self).client_routing@.insert(
                        client_id,
                        current_conn,
                    )
                    &&& final(self).subscriptions.map() == subscribe_effect(
                        old(self).subscriptions.map(),
                        topic,
                        current_conn,
                    )
                    &&& out is Subscribed
                },
                BrokerRequest::Unsubscribe { client_id, topic } => {
                    &&& final(self).client_routing@ == old(self).client_routing@
                    &&& final(self).subscriptions.map() == match map_get(
                        old(self).client_routing@,
                        client_id,
                    ) {
                        Some(c) => unsubscribe_effect(old(self).subscriptions.map(), topic, c),
                        None => old(self).subscriptions.map(),
                    }
                    &&& out is Unsubscribed
                },
                BrokerRequest::Publish { topic, payload } => {
                    &&& final(self).unchanged(*old(self))
                    &&& out matches BrokerOutcome::Broadcast { recipients, message } && {
                        &&& recipients@.no_duplicates()
                        &&& recipients@.to_set() == subscribers_of(
                            old(self).subscriptions.map(),
                            topic,
                        )
                        &&& message@ == broadcast_message(payload)
                        &&& message@.len() == payload.len() + 3
                        &&& message@[0] == TAG_BROADCAST
                        &&& spec_u16_from_le_bytes(message@.subrange(1, 3)) == payload.len()
                        &&& message@.subrange(3, message@.len() as int) == payload
                    }
                },
                BrokerRequest::RouteInput { client_id } => {
                    &&& final(self).unchanged(*old(self))
                    &&& match out {
                        BrokerOutcome::Forward { shard_conn, message } => message@ == packet@
                            && old(self).route_of(client_id) == Some(shard_conn) && old(self).route(
                            client_id,
                            Some(shard_conn),
                        ),
                        BrokerOutcome::NoShardRoute { client_id: c } => c == client_id && old(
                            self,
                        ).route_of(client_id) is None && old(self).route(client_id, None),
                        _ => false,
                    }
                },
                BrokerRequest::Malformed => final(self).unchanged(*old(self)) && out is Ignored,
                BrokerRequest::Unknown { tag } => final(self).unchanged(*old(self)) && out
                    == BrokerOutcome::UnknownTag { tag },
            },
    {
        proof {
            lemma_auto_spec_u32_to_from_le_bytes();
            lemma_auto_spec_u16_to_from_le_bytes();
        }
        if packet.len() == 0 {
            return BrokerOutcome::Ignored;
        }
        let tag = packet[0];
        if tag == TAG_SUBSCRIBE {
            if packet.len() < 37 {
                return BrokerOutcome::Ignored;
            }
            let client_id = u32_from_le_bytes(&packet[1..5]);
            let topic = read_topic(packet, 5);
            self.client_routing.insert(client_id, current_conn);
            self.subscriptions.subscribe(topic, current_conn);
            BrokerOutcome::Subscribed
        } else if tag == TAG_PUBLISH {
            if packet.len() < 35 {
                return BrokerOutcome::Ignored;
            }
            let topic = read_topic(packet, 1);
            let payload_len = u16_from_le_bytes(&packet[33..35]);
            let end: usize = 35 + payload_len as usize;
            if packet.len() < end {
                return BrokerOutcome::Ignored;
            }
            let payload = &packet[35..end];
            let mut message: Vec<u8> = Vec::new();
            message.push(TAG_BROADCAST);
            let mut len_bytes = u16_to_le_bytes(payload_len);
            message.append(&mut len_bytes);
            message.extend_from_slice(payload);
            let recipients = self.subscriptions.subscribers(&topic);
            proof {
                assert(payload@.len() == payload_len);
                assert(payload_len as u16 == payload_len);
                assert(message@ =~= broadcast_message(payload@));
                law_broadcast_frames_payload(payload@);
            }
            BrokerOutcome::Broadcast { recipients, message }
        } else if tag == TAG_UNSUBSCRIBE {
            if packet.len() < 37 {
                return BrokerOutcome::Ignored;
            }
            let client_id = u32_from_le_bytes(&packet[1..5]);
            let topic = read_topic(packet, 5);
            match self.client_routing.get(&client_id) {
                Some(c) => {
                    let conn = *c;
                    self.subscriptions.unsubscribe(&topic, conn);
                },
                None => {},
            }
            BrokerOutcome::Unsubscribed
        } else if tag == TAG_INPUT {
            if packet.len() < 21 {
                return BrokerOutcome::Ignored;
            }
            let client_id = u32_from_le_bytes(&packet[1..5]);
            match self.get_shard_conn_for_client(client_id) {
                Some(shard_conn) => {
                    let mut message: Vec<u8> = Vec::new();
                    message.extend_from_slice(packet);
                    assert(message@ =~= packet@);
                    BrokerOutcome::Forward { shard_conn, message }
                },
                None => BrokerOutcome::NoShardRoute { client_id },
            }
        } else {
            BrokerOutcome::UnknownTag { tag }
        }
    }

    /// The shard connection that input of `client_id` goes to.
    pub fn get_shard_conn_for_client(&self, client_id: u32) -> (r: Option<u64>)
        ensures
            r == self.route_of(client_id),
            self.route(client_id, r),
    {
        let client_conn = match self.client_routing.get(&client_id) {
            Some(c) => *c,
            None => {
                return None;
            },
        };
        match self.subscriptions.topic_of(client_conn) {
            Some(topic) => {
                let shard_id = self.extract_shard_id_from_topic(&topic);
                match self.shard_routing.get(&shard_id) {
                    Some(c) => Some(*c),
                    None => None,
                }
            },
            None => None,
        }
    }

    /// The shard that a topic names.
    pub fn extract_shard_id_from_topic(&self, topic: &[u8; 32]) -> (id: u32)
        ensures
            id == shard_id_of_topic(topic@),
    {
        shard_id_from_topic(topic)
    }

    /// Forgets a connection that went away: no client or shard is routed to
    /// it any more and it leaves every topic (topics stay, even when empty).
    pub fn disconnect(&mut self, conn: u64)
        ensures
            final(self).client_routing@ == old(self).client_routing@.restrict(
                old(self).client_routing@.dom().filter(
                    |k: u32| old(self).client_routing@[k] != conn,
                ),
            ),
            final(self).shard_routing@ == old(self).shard_routing@.restrict(
                old(self).shard_routing@.dom().filter(
                    |k: u32| old(self).shard_routing@[k] != conn,
                ),
            ),
            final(self).subscriptions.map() == drop_conn_effect(old(self).subscriptions.map(), conn),
    {
        drop_routes_to(&mut self.client_routing, conn);
        drop_routes_to(&mut self.shard_routing, conn);
        self.subscriptions.remove_conn(conn);
    }
}

/// Removes from `m` every entry whose value is `conn`.
fn drop_routes_to(m: &mut HashMap<u32, u64>, conn: u64)
    ensures
        final(m)@ == old(m)@.restrict(old(m)@.dom().filter(|k: u32| old(m)@[k] != conn)),
{
    let ghost m0 = m@;
    let mut doomed: Vec<u32> = Vec::new();
    for (k, v) in it: m.iter()
        invariant
            m@ == m0,
            forall|x: u32| #[trigger] m0.contains_key(x) ==> it.seq().contains((&x, &m0[x])),
            forall|i: int|
                0 <= i < doomed.len() ==> m0.contains_key(#[trigger] doomed@[i]) && m0[doomed@[i]]
                    == conn,
            forall|i: int|
                0 <= i < it.index() && *it.seq()[i].1 == conn ==> doomed@.contains(*it.seq()[i].0),
    {
        let ghost before = doomed@;
        assert(it.seq()[it.index() as int] == (k, v));
        if *v == conn {
            doomed.push(*k);
            assert forall|x: u32| before.contains(x) implies doomed@.contains(x) by {
                let j = choose|j: int| 0 <= j < before.len() && before[j] == x;
                assert(doomed@[j] == x);
            }
            assert(doomed@[doomed.len() - 1] == *k);
        }
    }
    assert(forall|x: u32| #[trigger] m0.contains_key(x) && m0[x] == conn ==> doomed@.contains(x));
    let mut i: usize = 0;
    while i < doomed.len()
        invariant
            i <= doomed.len(),
            forall|j: int|
                0 <= j < doomed.len() ==> m0.contains_key(#[trigger] doomed@[j]) && m0[doomed@[j]]
                    == conn,
            forall|x: u32|
                #[trigger] m@.contains_key(x) <==> m0.contains_key(x) && !doomed@.subrange(
                    0,
                    i as int,
                ).contains(x),
            forall|x: u32| #[trigger] m@.contains_key(x) ==> m@[x] == m0[x],
        decreases doomed.len() - i,
    {
        let ghost before = m@;
        m.remove(&doomed[i]);
        proof {
            let d = doomed@[i as int];
            let pre = doomed@.subrange(0, i as int);
            let post = doomed@.subrange(0, i + 1);
            assert(post =~= pre.push(d));
            assert(m@ == before.remove(d));
            assert forall|x: u32| #[trigger]
                m@.contains_key(x) <==> m0.contains_key(x) && !post.contains(x) by {
                if post.contains(x) && x != d {
                    let j = choose|j: int| 0 <= j < post.len() && post[j] == x;
                    assert(pre[j] == x);
                }
                if pre.contains(x) {
                    let j = choose|j: int| 0 <= j < pre.len() && pre[j] == x;
                    assert(post[j] == x);
                }
                if x == d {
                    assert(post[i as int] == x);
                }
            }
        }
        i = i + 1;
    }
    proof {
        let keep = m0.dom().filter(|k: u32| m0[k] != conn);
        assert forall|x: u32| m@.contains_key(x) <==> #[trigger] keep.contains(x) by {
            if m0.contains_key(x) && m0[x] != conn && doomed@.contains(x) {
                let j = choose|j: int| 0 <= j < doomed.len() && doomed@[j] == x;
                assert(m0[doomed@[j]] == conn);
            }
            if m0.contains_key(x) && m0[x] == conn {
                let j = choose|j: int| 0 <= j < doomed.len() && doomed@[j] == x;
                assert(doomed@.subrange(0, doomed.len() as int)[j] == x);
            }
        }
        assert(doomed@.subrange(0, doomed.len() as int) =~= doomed@);
        assert(m@ =~= m0.restrict(keep));
    }
}

/// The 32 bytes of a topic that start at `at`.
fn read_topic(packet: &[u8], at: usize) -> (topic: [u8; 32])
    requires
        at + 32 <= packet@.len(),
        packet@.len() <= usize::MAX,
    ensures
        topic@ == packet@.subrange(at as int, at + 32),
{
    let mut topic = [0u8; 32];
    let mut i: usize = 0;
    while i < 32
        invariant
            i <= 32,
            at + 32 <= packet@.len(),
            packet@.len() <= usize::MAX,
            forall|j: int| 0 <= j < i ==> topic@[j] == packet@[at + j],
        decreases 32 - i,
    {
        topic[i] = packet[at + i];
        i = i + 1;
    }
    assert(topic@ =~= packet@.subrange(at as int, at + 32));
    topic
}

/// The bytes of a subscription packet for a client and a shard's topic.
pub open spec fn topic_packet_bytes(tag: u8, client_id: u32, shard_id: u32) -> Seq<u8> {
    seq![tag] + spec_u32_to_le_bytes(client_id) + pad_topic(shard_topic_text(shard_id))
}

/// The broker reads a subscription packet of the spatial service as a
/// subscription of that client to a topic that names that shard.
pub proof fn law_subscription_packet_names_shard(client_id: u32, shard_id: u32)
    ensures
        decode_broker_packet(topic_packet_bytes(TAG_SUBSCRIBE, client_id, shard_id))
            == (BrokerRequest::Subscribe {
            client_id,
            topic: pad_topic(shard_topic_text(shard_id)),
        }),
        decode_broker_packet(topic_packet_bytes(TAG_UNSUBSCRIBE, client_id, shard_id))
            == (BrokerRequest::Unsubscribe {
            client_id,
            topic: pad_topic(shard_topic_text(shard_id)),
        }),
        shard_id_of_topic(pad_topic(shard_topic_text(shard_id))) == shard_id,
{
    lemma_auto_spec_u32_to_from_le_bytes();
    let topic = pad_topic(shard_topic_text(shard_id));
    let p1 = topic_packet_bytes(TAG_SUBSCRIBE, client_id, shard_id);
    let p2 = topic_packet_bytes(TAG_UNSUBSCRIBE, client_id, shard_id);
    assert(p1.subrange(1, 5) =~= spec_u32_to_le_bytes(client_id));
    assert(p1.subrange(5, 37) =~= topic);
    assert(p2.subrange(1, 5) =~= spec_u32_to_le_bytes(client_id));
    assert(p2.subrange(5, 37) =~= topic);
    law_shard_topic_roundtrip(shard_id);
}

/// A connection that subscribes to a topic is among those a publication on
/// that topic is broadcast to.
pub proof fn law_subscriber_receives_publication(
    subs: Map<Seq<u8>, Set<u64>>,
    topic: Seq<u8>,
    conn: u64,
)
    ensures
        subscribers_of(subscribe_effect(subs, topic, conn), topic).contains(conn),
{
}

/// Unsubscribing undoes subscribing: the table comes back to what it was,
/// for a connection that was not yet subscribed to a topic that had
/// subscribers or was unknown.
pub proof fn law_unsubscribe_undoes_subscribe(
    subs: Map<Seq<u8>, Set<u64>>,
    topic: Seq<u8>,
    conn: u64,
)
    requires
        !subs.dom().contains(topic) || (!subs[topic].contains(conn) && !subs[topic].is_empty()),
    ensures
        unsubscribe_effect(subscribe_effect(subs, topic, conn), topic, conn) == subs,
{
    let after = subscribe_effect(subs, topic, conn);
    if subs.dom().contains(topic) {
        assert(after[topic].remove(conn) =~= subs[topic]);
        assert(unsubscribe_effect(after, topic, conn) =~= subs);
    } else {
        assert(after[topic].remove(conn) =~= Set::<u64>::empty());
        assert(unsubscribe_effect(after, topic, conn) =~= subs);
    }
}

/// After a connection goes away no topic lists it any more.
pub proof fn law_disconnected_conn_leaves_every_topic(subs: Map<Seq<u8>, Set<u64>>, conn: u64)
    ensures
        forall|t: Seq<u8>| !#[trigger] subscribers_of(drop_conn_effect(subs, conn), t).contains(conn),
{
}

fn topic_packet(tag: u8, client_id: u32, shard_id: u32) -> (p: Vec<u8>)
    ensures
        p@ == topic_packet_bytes(tag, client_id, shard_id),
{
    let mut p: Vec<u8> = Vec::new();
    p.push(tag);
    let mut id_bytes = u32_to_le_bytes(client_id);
    p.append(&mut id_bytes);
    let topic = shard_topic(shard_id);
    p.extend_from_slice(topic.as_slice());
    assert(p@ =~= seq![tag] + spec_u32_to_le_bytes(client_id) + pad_topic(shard_topic_text(shard_id)));
    p
}

/// The packet that subscribes a client to the topic of a shard.
pub fn subscribe_packet(client_id: u32, shard_id: u32) -> (p: Vec<u8>)
    ensures
        p@ == topic_packet_bytes(TAG_SUBSCRIBE, client_id, shard_id),
{
    topic_packet(TAG_SUBSCRIBE, client_id, shard_id)
}

/// The packet that unsubscribes a client from the topic of a shard.
pub fn unsubscribe_packet(client_id: u32, shard_id: u32) -> (p: Vec<u8>)
    ensures
        p@ == topic_packet_bytes(TAG_UNSUBSCRIBE, client_id, shard_id),
{
    topic_packet(TAG_UNSUBSCRIBE, client_id, shard_id)
}

} // verus!
