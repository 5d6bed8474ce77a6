//! A dedicated game server: who has joined it, what it reports to the
//! orchestrator, and which shard has authority over each of its entities
//! during a hand-off between neighbouring shards.

use vstd::prelude::*;
use crate::keyed::{distinct_keys, has_key, key_index, lemma_key_count, lemma_key_index};
use crate::fleet::Heartbeat;
use crate::ids::{is_uuid_v4_text, new_uuid_v4_string};
use crate::protocol::{ShardMessage, Vec2Bits};

verus! {

/// A socket address: an IPv4 address (`is_v6` false, the address in the
/// low 32 bits of `ip`) or an IPv6 one with its flow label and scope.
#[derive(Clone, Copy, Debug, PartialEq, Eq, Structural, Hash)]
pub struct PeerAddr {
    pub is_v6: bool,
    pub ip: u128,
    pub port: u16,
    pub flowinfo: u32,
    pub scope_id: u32,
}

/// The players on the server: each address with the id it was given. Kept
/// as a vector with distinct addresses rather than a `HashMap`: vstd
/// specifies hash maps only for keys of integer, `bool` or boxed primitive
/// type, and an address is a struct.
pub struct PlayerRegistry {
    players: Vec<(PeerAddr, String)>,
}

impl PlayerRegistry {
    #[verifier::type_invariant]
    closed spec fn addrs_distinct(self) -> bool {
        distinct_keys(self.players@)
    }

    closed spec fn has_addr(self, a: PeerAddr) -> bool {
        has_key(self.players@, a)
    }

    closed spec fn addr_index(self, a: PeerAddr) -> int {
        key_index(self.players@, a)
    }

    /// Each player's address and id.
    pub closed spec fn map(self) -> Map<PeerAddr, Seq<char>> {
        Map::new(|a: PeerAddr| self.has_addr(a), |a: PeerAddr| self.players@[self.addr_index(a)].1@)
    }

    proof fn lemma_index_unique(self, a: PeerAddr, i: int)
        requires
            self.addrs_distinct(),
            0 <= i < self.players@.len(),
            self.players@[i].0 == a,
        ensures
            self.has_addr(a),
            self.addr_index(a) == i,
            self.map().dom().contains(a),
            self.map()[a] == self.players@[i].1@,
    {
        lemma_key_index(self.players@, a, i);
    }

    proof fn lemma_len(self)
        requires
            self.addrs_distinct(),
        ensures
            self.map().dom().len() == self.players@.len(),
            self.map().dom().finite(),
    {
        lemma_key_count(self.players@);
        assert(self.map().dom() =~= Set::new(|a: PeerAddr| has_key(self.players@, a)));
    }

    /// A server with no player.
    pub fn new() -> (r: Self)
        ensures
            r.map() == Map::<PeerAddr, Seq<char>>::empty(),
            r.map().dom().finite(),
    {
        let r = PlayerRegistry { players: Vec::new() };
        assert(r.map() =~= Map::<PeerAddr, Seq<char>>::empty());
        r
    }

    /// How many players are on the server.
    pub fn len(&self) -> (n: usize)
        ensures
            n == self.map().dom().len(),
            self.map().dom().finite(),
    {
        proof {
            use_type_invariant(self);
            self.lemma_len();
        }
        self.players.len()
    }

    /// Gives `addr` the id `player_id`, replacing the id it had.
    pub fn insert(&mut self, addr: PeerAddr, player_id: String)
        ensures
            final(self).map() == old(self).map().insert(addr, player_id@),
            final(self).map().dom().finite(),
    {
        proof {
            use_type_invariant(&*self);
        }
        let ghost old_self = *self;
        let ghost id = player_id@;
        let mut players: Vec<(PeerAddr, String)> = Vec::new();
        std::mem::swap(&mut players, &mut self.players);
        let found = find_addr(&players, addr);
        let ghost at: int = match found {
            Some(i) => i as int,
            None => players@.len() as int,
        };
        match found {
            Some(i) => {
                players.set(i, (addr, player_id));
            },
            None => {
                players.push((addr, player_id));
            },
        }
        proof {
            assert forall|a: int, b: int| 0 <= a < b < players@.len() implies #[trigger] players@[a].0
                != #[trigger] players@[b].0 by {
                if b < old_self.players@.len() && a != at && b != at {
                    assert(old_self.players@[a].0 != old_self.players@[b].0);
                }
            }
        }
        self.players = players;
        proof {
            self.lemma_index_unique(addr, at);
            assert forall|a2: PeerAddr| a2 != addr implies (old_self.has_addr(a2) == self.has_addr(a2)
                && (old_self.has_addr(a2) ==> old_self.map()[a2] == self.map()[a2])) by {
                if old_self.has_addr(a2) {
                    let j = old_self.addr_index(a2);
                    old_self.lemma_index_unique(a2, j);
                    assert(j != at);
                    self.lemma_index_unique(a2, j);
                }
                if self.has_addr(a2) {
                    let j = self.addr_index(a2);
                    assert(j != at);
                    assert(old_self.players@[j].0 == a2);
                }
            }
            assert(self.map() =~= old_self.map().insert(addr, id));
            self.lemma_len();
        }
    }
}

fn find_addr(players: &Vec<(PeerAddr, String)>, addr: PeerAddr) -> (r: Option<usize>)
    ensures
        r matches Some(i) ==> i < players@.len() && players@[i as int].0 == addr,
        r is None ==> forall|j: int| 0 <= j < players@.len() ==> players@[j].0 != addr,
{
    let mut i: usize = 0;
    while i < players.len()
        invariant
            i <= players@.len(),
            forall|j: int| 0 <= j < i ==> players@[j].0 != addr,
        decreases players@.len() - i,
    {
        if players[i].0 == addr {
            return Some(i);
        }
        i = i + 1;
    }
    None
}

/// Whether a datagram, read as text, starts with `JOIN`. (Lossy UTF-8
/// decoding keeps ASCII bytes as they are, so the test is on the bytes.)
pub open spec fn is_join(payload: Seq<u8>) -> bool {
    payload.len() >= 4 && payload[0] == 74u8 && payload[1] == 79u8 && payload[2] == 73u8
        && payload[3] == 78u8
}

/// What the server does about a datagram from a player.
pub enum JoinOutcome {
    /// Not a join request; nothing changes.
    NotAJoin,
    /// The server is full; the player is turned away.
    ServerFull,
    /// The player joined under `player_id`; `response` goes back to it.
    Welcome { player_id: String, response: String },
}

impl PlayerRegistry {
    /// Handles a datagram from `addr` with `player_id` as the id a new
    /// player gets: a join is refused when the server already has
    /// `max_players` players, and otherwise records the player and answers
    /// `WELCOME` and its id.
    pub fn accept_join(&mut self, payload: &[u8], addr: PeerAddr, max_players: usize, player_id: String) -> (out:
        JoinOutcome)
        ensures
            !is_join(payload@) ==> out is NotAJoin && final(self).map() == old(self).map(),
            is_join(payload@) && old(self).map().dom().len() >= max_players ==> out is ServerFull
                && final(self).map() == old(self).map(),
            is_join(payload@) && old(self).map().dom().len() < max_players ==> final(self).map()
                == old(self).map().insert(addr, player_id@) && (out matches JoinOutcome::Welcome {
                player_id: id,
                response,
            } && id@ == player_id@ && response@ == "WELCOME "@ + player_id@),
            final(self).map().dom().finite(),
            final(self).map().dom().len() <= (if old(self).map().dom().len() >= max_players {
                old(self).map().dom().len()
            } else {
                max_players as nat
            }),
    {
        proof {
            use_type_invariant(&*self);
            self.lemma_len();
        }
        if !(payload.len() >= 4 && payload[0] == 74u8 && payload[1] == 79u8 && payload[2] == 73u8
            && payload[3] == 78u8) {
            return JoinOutcome::NotAJoin;
        }
        if self.len() >= max_players {
            return JoinOutcome::ServerFull;
        }
        let id = player_id.clone();
        let mut response = "WELCOME ".to_owned();
        response.append(player_id.as_str());
        let ghost before = self.map();
        self.insert(addr, player_id);
        proof {
            use_type_invariant(&*self);
            self.lemma_len();
            if before.dom().contains(addr) {
                assert(self.map().dom() =~= before.dom());
            } else {
                assert(self.map().dom() =~= before.dom().insert(addr));
            }
        }
        JoinOutcome::Welcome { player_id: id, response }
    }

    /// Handles a datagram from `addr`, giving a new player a fresh random
    /// id.
    pub fn receive_packet(&mut self, payload: &[u8], addr: PeerAddr, max_players: usize) -> (out:
        JoinOutcome)
        ensures
            !is_join(payload@) ==> out is NotAJoin && final(self).map() == old(self).map(),
            is_join(payload@) && old(self).map().dom().len() >= max_players ==> out is ServerFull
                && final(self).map() == old(self).map(),
            is_join(payload@) && old(self).map().dom().len() < max_players ==> (out matches JoinOutcome::Welcome {
                player_id,
                response,
            } && is_uuid_v4_text(player_id@) && final(self).map() == old(self).map().insert(
                addr,
                player_id@,
            ) && response@ == "WELCOME "@ + player_id@),
            final(self).map().dom().finite(),
            final(self).map().dom().len() <= (if old(self).map().dom().len() >= max_players {
                old(self).map().dom().len()
            } else {
                max_players as nat
            }),
    {
        proof {
            use_type_invariant(&*self);
            self.lemma_len();
        }
        if !(payload.len() >= 4 && payload[0] == 74u8 && payload[1] == 79u8 && payload[2] == 73u8
            && payload[3] == 78u8) {
            return JoinOutcome::NotAJoin;
        }
        let player_id = new_uuid_v4_string();
        self.accept_join(payload, addr, max_players, player_id)
    }
}

/// A dedicated server's settings.
pub struct ServerConfig {
    pub id: String,
    pub port: u16,
    pub zone: String,
    pub max_players: usize,
    pub orchestrator_addr: PeerAddr,
}

impl ServerConfig {
    /// The settings of a new server on `port`: a fresh random id, zone
    /// `zone_A`, room for ten players.
    pub fn new(port: u16, orchestrator_addr: PeerAddr) -> (c: Self)
        ensures
            is_uuid_v4_text(c.id@),
            c.port == port,
            c.zone@ == "zone_A"@,
            c.max_players == 10,
            c.orchestrator_addr == orchestrator_addr,
    {
        ServerConfig {
            id: new_uuid_v4_string(),
            port,
            zone: "zone_A".to_owned(),
            max_players: 10,
            orchestrator_addr,
        }
    }

    /// The heartbeat the server sends: its id, address `127.0.0.1`, port,
    /// zone, how many players it has and how many it accepts.
    pub fn make_heartbeat(&self, registry: &PlayerRegistry) -> (hb: Heartbeat)
        ensures
            hb.id@ == self.id@,
            hb.ip@ == "127.0.0.1"@,
            hb.port == self.port,
            hb.zone@ == self.zone@,
            hb.player_count == registry.map().dom().len(),
            hb.max_players == self.max_players,
    {
        Heartbeat {
            id: self.id.clone(),
            ip: "127.0.0.1".to_owned(),
            port: self.port,
            zone: self.zone.clone(),
            player_count: registry.len(),
            max_players: self.max_players,
        }
    }
}

#[derive(Clone, Copy, Debug, PartialEq, Eq, Structural)]
pub struct NetworkEntityId(pub u32);

/// Which shard has authority over an entity.
#[derive(Clone, Copy, Debug, PartialEq, Eq, Structural)]
pub enum AuthorityState {
    /// This shard simulates the entity.
    Owned,
    /// The entity is being handed to `target_shard`.
    PendingHandoff { target_shard: u32 },
    /// A read-only copy of an entity simulated by `source_shard`.
    GhostOf { source_shard: u32 },
}

/// The state an entity moves to when it nears the border with
/// `target_shard`: only an owned entity starts a hand-off.
pub open spec fn state_after_crossing(state: AuthorityState, target_shard: u32) -> AuthorityState {
    if state == AuthorityState::Owned {
        AuthorityState::PendingHandoff { target_shard }
    } else {
        state
    }
}

/// The state of the local entity that a message from a neighbour is about,
/// after the message (`None` when this shard has no such entity). A hand-off
/// request is answered by a new ghost, not by a change of an existing
/// entity.
pub open spec fn state_after_message(msg: ShardMessage, local: Option<AuthorityState>) -> Option<
    AuthorityState,
> {
    match msg {
        ShardMessage::HandoffReject { .. } => match local {
            Some(_) => Some(AuthorityState::Owned),
            None => None,
        },
        ShardMessage::HandoffComplete { .. } => match local {
            Some(_) => Some(AuthorityState::Owned),
            None => None,
        },
        _ => local,
    }
}

/// Starts handing an entity to `target_shard` when it nears the border: the
/// new state and the request to send, or `None` when the entity is not
/// owned here.
pub fn begin_handoff(
    state: AuthorityState,
    entity_id: u32,
    pos: Vec2Bits,
    vel: Vec2Bits,
    target_shard: u32,
) -> (r: Option<(AuthorityState, ShardMessage)>)
    ensures
        r is Some <==> state == AuthorityState::Owned,
        r matches Some((s, m)) ==> s == state_after_crossing(state, target_shard) && (m matches ShardMessage::HandoffRequest {
            entity_id: e,
            pos: p,
            vel: v,
            state: st,
        } && e == entity_id && p == pos && v == vel && st@ == Seq::new(64, |i: int| 0u8)),
{
    if state == AuthorityState::Owned {
        let st = [0u8; 64];
        assert(st@ =~= Seq::new(64, |i: int| 0u8));
        Some(
            (
                AuthorityState::PendingHandoff { target_shard },
                ShardMessage::HandoffRequest { entity_id, pos, vel, state: st },
            ),
        )
    } else {
        None
    }
}

/// The update to stream to the target shard while a hand-off is pending:
/// the target and the message, or `None` when no hand-off is pending.
pub fn ghost_update_for(state: AuthorityState, entity_id: u32, pos: Vec2Bits, vel: Vec2Bits) -> (r:
    Option<(u32, ShardMessage)>)
    ensures
        match state {
            AuthorityState::PendingHandoff { target_shard } => r == Some(
                (target_shard, ShardMessage::GhostUpdate { entity_id, pos, vel }),
            ),
            _ => r is None,
        },
{
    match state {
        AuthorityState::PendingHandoff { target_shard } => Some(
            (target_shard, ShardMessage::GhostUpdate { entity_id, pos, vel }),
        ),
        _ => None,
    }
}

/// What a shard does about a message from a neighbour.
pub enum AuthorityReaction {
    /// Answer `reply` and create a ghost of the entity with this state.
    SpawnGhost { reply: ShardMessage, entity_id: u32, pos: Vec2Bits, vel: Vec2Bits, state: AuthorityState },
    /// Nothing to do.
    Nothing,
    /// The neighbour refused the entity: own it again and bounce it back.
    Reclaim { state: AuthorityState },
    /// Move the local ghost to the master's position and velocity.
    ApplyGhostUpdate { pos: Vec2Bits, vel: Vec2Bits },
    /// The hand-off is complete: this shard now owns the entity.
    TakeOwnership { state: AuthorityState },
}

/// Reacts to a message from a neighbouring shard; `local` is the state of
/// the local entity the message is about, if this shard has one.
pub fn react_to_shard_message(msg: &ShardMessage, local: Option<AuthorityState>) -> (r:
    AuthorityReaction)
    ensures
        match *msg {
            ShardMessage::HandoffRequest { entity_id, pos, vel, .. } => r == (AuthorityReaction::SpawnGhost {
                reply: ShardMessage::HandoffAccept { entity_id },
                entity_id,
                pos,
                vel,
                state: AuthorityState::GhostOf { source_shard: 0 },
            }),
            ShardMessage::HandoffAccept { .. } => r is Nothing,
            ShardMessage::HandoffReject { .. } => if local is Some {
                r == (AuthorityReaction::Reclaim { state: AuthorityState::Owned })
            } else {
                r is Nothing
            },
            ShardMessage::GhostUpdate { pos, vel, .. } => if local matches Some(
                AuthorityState::GhostOf { .. },
            ) {
                r == (AuthorityReaction::ApplyGhostUpdate { pos, vel })
            } else {
                r is Nothing
            },
            ShardMessage::HandoffComplete { .. } => if local is Some {
                r == (AuthorityReaction::TakeOwnership { state: AuthorityState::Owned })
            } else {
                r is Nothing
            },
        },
        match r {
            AuthorityReaction::Reclaim { state } => Some(state) == state_after_message(*msg, local),
            AuthorityReaction::TakeOwnership { state } => Some(state) == state_after_message(*msg, local),
            _ => state_after_message(*msg, local) == local,
        },
{
    match msg {
        ShardMessage::HandoffRequest { entity_id, pos, vel, .. } => AuthorityReaction::SpawnGhost {
            reply: ShardMessage::HandoffAccept { entity_id: *entity_id },
            entity_id: *entity_id,
            pos: *pos,
            vel: *vel,
            state: AuthorityState::GhostOf { source_shard: 0 },
        },
        ShardMessage::HandoffAccept { .. } => AuthorityReaction::Nothing,
        ShardMessage::HandoffReject { .. } => match local {
            Some(_) => AuthorityReaction::Reclaim { state: AuthorityState::Owned },
            None => AuthorityReaction::Nothing,
        },
        ShardMessage::GhostUpdate { pos, vel, .. } => match local {
            Some(AuthorityState::GhostOf { .. }) => AuthorityReaction::ApplyGhostUpdate {
                pos: *pos,
                vel: *vel,
            },
            _ => AuthorityReaction::Nothing,
        },
        ShardMessage::HandoffComplete { .. } => match local {
            Some(_) => AuthorityReaction::TakeOwnership { state: AuthorityState::Owned },
            None => AuthorityReaction::Nothing,
        },
    }
}

/// A hand-off ends with the entity owned on one side: an owned entity that
/// nears a border is pending until the neighbour refuses it (owned again
/// here) or completes the transfer (owned there); a ghost update never
/// changes whose the entity is, and only an owned entity starts a hand-off.
pub proof fn law_handoff_resolves(target: u32, e: u32, pos: Vec2Bits, vel: Vec2Bits, s: AuthorityState)
    ensures
        state_after_crossing(AuthorityState::Owned, target) == (AuthorityState::PendingHandoff {
            target_shard: target,
        }),
        state_after_message(
            ShardMessage::HandoffReject { entity_id: e },
            Some(state_after_crossing(AuthorityState::Owned, target)),
        ) == Some(AuthorityState::Owned),
        state_after_message(ShardMessage::HandoffComplete { entity_id: e }, Some(s)) == Some(
            AuthorityState::Owned,
        ),
        state_after_message(ShardMessage::GhostUpdate { entity_id: e, pos, vel }, Some(s)) == Some(
            s,
        ),
        s != AuthorityState::Owned ==> state_after_crossing(s, target) == s,
{
}

} // verus!
