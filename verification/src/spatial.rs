//! The spatial service's bookkeeping: which shard has authority over each
//! client and which shard topics the client is subscribed to, updated on
//! every position report.

use vstd::prelude::*;
use vstd::bytes::{spec_u32_from_le_bytes, u32_from_le_bytes};
use std::collections::{HashMap, HashSet};
use vstd::std_specs::iter::IteratorSpec;
use crate::protocol::Vec2Bits;

verus! {

pub const TAG_POSITION_UPDATE: u8 = 0x10;

/// A client's reported position, as the bit patterns of two 32-bit floats.
#[derive(Clone, Copy, Debug, PartialEq, Eq, Structural)]
pub struct PositionUpdate {
    pub client_id: u32,
    pub pos: Vec2Bits,
}

/// Reads a position report: the tag, then the client number and the two
/// coordinates, little-endian. Anything shorter than 13 bytes or with
/// another tag is not a report.
pub fn parse_position_update(datagram: &[u8]) -> (r: Option<PositionUpdate>)
    ensures
        r is Some <==> (datagram@.len() >= 13 && datagram@[0] == TAG_POSITION_UPDATE),
        r matches Some(u) ==> {
            &&& u.client_id == spec_u32_from_le_bytes(datagram@.subrange(1, 5))
            &&& u.pos.x == spec_u32_from_le_bytes(datagram@.subrange(5, 9))
            &&& u.pos.y == spec_u32_from_le_bytes(datagram@.subrange(9, 13))
        },
{
    if datagram.len() >= 13 && datagram[0] == TAG_POSITION_UPDATE {
        let client_id = u32_from_le_bytes(&datagram[1..5]);
        let x = u32_from_le_bytes(&datagram[5..9]);
        let y = u32_from_le_bytes(&datagram[9..13]);
        Some(PositionUpdate { client_id, pos: Vec2Bits { x, y } })
    } else {
        None
    }
}

/// Whether `v` lists `x`.
pub fn contains_u32(v: &Vec<u32>, x: u32) -> (r: bool)
    ensures
        r == v@.contains(x),
{
    let mut i: usize = 0;
    while i < v.len()
        invariant
            i <= v@.len(),
            forall|j: int| 0 <= j < i ==> v@[j] != x,
        decreases v@.len() - i,
    {
        if v[i] == x {
            return true;
        }
        i = i + 1;
    }
    false
}

/// The shards of `v` as a set.
pub fn shard_set(v: &Vec<u32>) -> (r: HashSet<u32>)
    ensures
        r@ == v@.to_set(),
{
    let mut r: HashSet<u32> = HashSet::new();
    let mut i: usize = 0;
    while i < v.len()
        invariant
            i <= v@.len(),
            r@ == v@.subrange(0, i as int).to_set(),
        decreases v@.len() - i,
    {
        r.insert(v[i]);
        proof {
            let pre = v@.subrange(0, i as int);
            let post = v@.subrange(0, i + 1);
            assert(post =~= pre.push(v@[i as int]));
            pre.lemma_push_to_set_commute(v@[i as int]);
        }
        i = i + 1;
    }
    assert(v@.subrange(0, v@.len() as int) =~= v@);
    r
}

/// The shards of `a` that are not in `b`, each listed once.
pub fn set_difference(a: &HashSet<u32>, b: &HashSet<u32>) -> (r: Vec<u32>)
    ensures
        r@.no_duplicates(),
        r@.to_set() == a@.difference(b@),
{
    let mut r: Vec<u32> = Vec::new();
    proof {
        let items = a.iter().remaining();
        assert(items.unref().to_set() == a@);
        assert forall|y: u32| #[trigger] a@.contains(y) implies exists|j: int|
            0 <= j < items.len() && *items[j] == y by {
            assert(items.unref().contains(y));
            let j = choose|j: int| 0 <= j < items.unref().len() && items.unref()[j] == y;
            assert(*items[j] == y);
        }
        assert forall|j: int| 0 <= j < items.len() implies a@.contains(#[trigger] *items[j]) by {
            assert(items.unref()[j] == *items[j]);
            assert(items.unref().contains(*items[j]));
        }
    }
    for x in it: a.iter()
        invariant
            it.seq().no_duplicates(),
            forall|y: u32| #[trigger] a@.contains(y) <==> exists|j: int|
                0 <= j < it.seq().len() && *it.seq()[j] == y,
            r@.no_duplicates(),
            forall|y: u32| #[trigger]
                r@.contains(y) <==> (exists|j: int| 0 <= j < it.index() && *it.seq()[j] == y)
                    && !b@.contains(y),
    {
        let ghost before = r@;
        assert(*it.seq()[it.index() as int] == *x);
        if !b.contains(x) {
            proof {
                if before.contains(*x) {
                    let j = choose|j: int| 0 <= j < it.index() && *it.seq()[j] == *x;
                    assert(it.seq()[j] == it.seq()[it.index() as int]);
                }
            }
            r.push(*x);
            assert forall|y: u32| before.contains(y) implies r@.contains(y) by {
                let j = choose|j: int| 0 <= j < before.len() && before[j] == y;
                assert(r@[j] == y);
            }
            assert(r@[r@.len() - 1] == *x);
        }
        assert forall|y: u32| #[trigger]
            r@.contains(y) <==> (exists|j: int| 0 <= j < it.index() + 1 && *it.seq()[j] == y)
                && !b@.contains(y) by {
            if r@.contains(y) {
                if y == *x {
                    assert(*it.seq()[it.index() as int] == y);
                } else {
                    let j = choose|j: int| 0 <= j < r@.len() && r@[j] == y;
                    assert(before[j] == y);
                    assert(before.contains(y));
                    let w = choose|w: int| 0 <= w < it.index() && *it.seq()[w] == y;
                    assert(*it.seq()[w] == y);
                }
            }
            if (exists|j: int| 0 <= j < it.index() + 1 && *it.seq()[j] == y) && !b@.contains(y) {
                let j = choose|j: int| 0 <= j < it.index() + 1 && *it.seq()[j] == y;
                if j < it.index() {
                    assert(before.contains(y));
                } else {
                    assert(y == *x);
                }
            }
        }
    }
    assert(r@.to_set() =~= a@.difference(b@));
    r
}

pub struct PlayerState {
    /// The shard that has authority over the client.
    pub current_authority: u32,
    /// The shards whose topics the client is subscribed to.
    pub active_subscriptions: HashSet<u32>,
}

/// What to tell the broker and the shards after a position report.
pub struct SubscriptionChanges {
    /// Authority moved from the first shard to the second.
    pub authority_change: Option<(u32, u32)>,
    /// Shards the client must now be subscribed to.
    pub subscribe: Vec<u32>,
    /// Shards the client must no longer be subscribed to.
    pub unsubscribe: Vec<u32>,
}

pub struct PlayerTracker {
    pub players: HashMap<u32, PlayerState>,
}

/// The authority a client had before a report: its recorded one, or for a
/// client never seen, the shard it reports from (shard 0 when none).
pub open spec fn previous_authority(
    players: Map<u32, PlayerState>,
    client_id: u32,
    shard_here: Option<u32>,
) -> u32 {
    if players.dom().contains(client_id) {
        players[client_id].current_authority
    } else {
        match shard_here {
            Some(s) => s,
            None => 0,
        }
    }
}

/// A client seen for the first time starts under the shard it reports from
/// (shard 0 when it reports from outside every shard), so its first report
/// hands nothing off; a tracked client's authority is the one recorded.
pub proof fn law_first_report_hands_off_nothing(
    players: Map<u32, PlayerState>,
    client_id: u32,
    shard_here: Option<u32>,
)
    ensures
        !players.dom().contains(client_id) ==> previous_authority(players, client_id, shard_here)
            == (match shard_here {
            Some(s) => s,
            None => 0,
        }),
        !players.dom().contains(client_id) && shard_here is Some ==> previous_authority(
            players,
            client_id,
            shard_here,
        ) == shard_here->Some_0,
        players.dom().contains(client_id) ==> previous_authority(players, client_id, shard_here)
            == players[client_id].current_authority,
{
}

/// The shards a client was subscribed to before a report.
pub open spec fn previous_subscriptions(players: Map<u32, PlayerState>, client_id: u32) -> Set<u32> {
    if players.dom().contains(client_id) {
        players[client_id].active_subscriptions@
    } else {
        Set::empty()
    }
}

/// The shards a client must subscribe to when its wanted shards go from
/// `prev` to `wanted`.
pub open spec fn subscribe_set(prev: Set<u32>, wanted: Set<u32>) -> Set<u32> {
    wanted.difference(prev)
}

/// The shards a client must unsubscribe from when its wanted shards go from
/// `prev` to `wanted`.
pub open spec fn unsubscribe_set(prev: Set<u32>, wanted: Set<u32>) -> Set<u32> {
    prev.difference(wanted)
}

/// Over a run of reports whose shards in range are `ws`, starting from the
/// subscriptions `prev`: how many subscriptions to `s` were sent, less how
/// many unsubscriptions.
pub open spec fn net_subscriptions(prev: Set<u32>, ws: Seq<Set<u32>>, s: u32) -> int
    decreases ws.len(),
{
    if ws.len() == 0 {
        0
    } else {
        (if subscribe_set(prev, ws[0]).contains(s) {
            1int
        } else {
            0int
        }) - (if unsubscribe_set(prev, ws[0]).contains(s) {
            1int
        } else {
            0int
        }) + net_subscriptions(ws[0], ws.drop_first(), s)
    }
}

/// The subscriptions a client has after a run of reports.
pub open spec fn subscriptions_after(prev: Set<u32>, ws: Seq<Set<u32>>) -> Set<u32> {
    if ws.len() == 0 {
        prev
    } else {
        ws.last()
    }
}

proof fn lemma_net_subscriptions(prev: Set<u32>, ws: Seq<Set<u32>>, s: u32)
    ensures
        net_subscriptions(prev, ws, s) == (if subscriptions_after(prev, ws).contains(s) {
            1int
        } else {
            0int
        }) - (if prev.contains(s) {
            1int
        } else {
            0int
        }),
    decreases ws.len(),
{
    if ws.len() > 0 {
        lemma_net_subscriptions(ws[0], ws.drop_first(), s);
        if ws.len() > 1 {
            assert(ws.drop_first().last() == ws.last());
        }
    }
}

/// The shards a client wanted before the `k`-th report of a run that
/// starts with no subscriptions.
pub open spec fn wanted_before(ws: Seq<Set<u32>>, k: int) -> Set<u32> {
    if k == 0 {
        Set::empty()
    } else {
        ws[k - 1]
    }
}

/// Over any run of position reports of a client first seen with no
/// subscriptions, the subscriptions and unsubscriptions sent for any shard
/// alternate, starting with a subscription: after each report, those sent
/// so far differ by one exactly when the shard is subscribed, and by none
/// otherwise; a subscription is sent only when the difference was zero and
/// an unsubscription only when it was one.
pub proof fn law_subscriptions_alternate(ws: Seq<Set<u32>>, s: u32)
    ensures
        forall|k: int|
            0 <= k <= ws.len() ==> #[trigger] net_subscriptions(Set::empty(), ws.take(k), s) == (
            if k > 0 && ws[k - 1].contains(s) {
                1int
            } else {
                0int
            }),
        forall|k: int|
            #![trigger ws[k]]
            0 <= k < ws.len() ==> {
                &&& subscribe_set(wanted_before(ws, k), ws[k]).contains(s) ==> net_subscriptions(
                    Set::empty(),
                    ws.take(k),
                    s,
                ) == 0
                &&& unsubscribe_set(wanted_before(ws, k), ws[k]).contains(s) ==> net_subscriptions(
                    Set::empty(),
                    ws.take(k),
                    s,
                ) == 1
            },
{
    assert forall|k: int| 0 <= k <= ws.len() implies #[trigger] net_subscriptions(
        Set::empty(),
        ws.take(k),
        s,
    ) == (if k > 0 && ws[k - 1].contains(s) {
        1int
    } else {
        0int
    }) by {
        lemma_net_subscriptions(Set::empty(), ws.take(k), s);
        if k > 0 {
            assert(ws.take(k).last() == ws[k - 1]);
        }
    }
    assert forall|k: int| #![trigger ws[k]] 0 <= k < ws.len() implies {
        &&& subscribe_set(wanted_before(ws, k), ws[k]).contains(s) ==> net_subscriptions(
            Set::empty(),
            ws.take(k),
            s,
        ) == 0
        &&& unsubscribe_set(wanted_before(ws, k), ws[k]).contains(s) ==> net_subscriptions(
            Set::empty(),
            ws.take(k),
            s,
        ) == 1
    } by {
        lemma_net_subscriptions(Set::empty(), ws.take(k), s);
        if k > 0 {
            assert(ws.take(k).last() == ws[k - 1]);
        }
    }
}

impl PlayerTracker {
    pub fn new() -> (t: Self)
        ensures
            t.players@ == Map::<u32, PlayerState>::empty(),
    {
        PlayerTracker { players: HashMap::new() }
    }

    /// Records a position report of `client_id`: `shard_here` is the shard
    /// of the reported position and `shards_in_range` the shards within the
    /// margin around it. Authority moves to the shard of the position when
    /// there is one; the subscriptions become exactly the shards in range.
    pub fn on_position_update(
        &mut self,
        client_id: u32,
        shard_here: Option<u32>,
        shards_in_range: &Vec<u32>,
    ) -> (c: SubscriptionChanges)
        ensures
            ({
                let old_players = old(self).players@;
                let new_players = final(self).players@;
                let prev = previous_authority(old_players, client_id, shard_here);
                let prev_subs = previous_subscriptions(old_players, client_id);
                let wanted = shards_in_range@.to_set();
                &&& new_players.dom() == old_players.dom().insert(client_id)
                &&& forall|k: u32|
                    k != client_id && #[trigger] old_players.dom().contains(k) ==> new_players[k]
                        == old_players[k]
                &&& new_players[client_id].current_authority == (match shard_here {
                    Some(s) => s,
                    None => prev,
                })
                &&& new_players[client_id].active_subscriptions@ == wanted
                &&& c.authority_change == (match shard_here {
                    Some(s) => if s != prev {
                        Some((prev, s))
                    } else {
                        None
                    },
                    None => None,
                })
                &&& c.subscribe@.no_duplicates()
                &&& c.subscribe@.to_set() == subscribe_set(prev_subs, wanted)
                &&& c.unsubscribe@.no_duplicates()
                &&& c.unsubscribe@.to_set() == unsubscribe_set(prev_subs, wanted)
            }),
            !old(self).players@.dom().contains(client_id) ==> {
                &&& c.authority_change is None
                &&& final(self).players@[client_id].current_authority == (match shard_here {
                    Some(s) => s,
                    None => 0,
                })
                &&& c.subscribe@.to_set() == shards_in_range@.to_set()
                &&& c.unsubscribe@.len() == 0
            },
            old(self).players@.dom().contains(client_id) ==> {
                let before = old(self).players@[client_id];
                &&& c.authority_change == (match shard_here {
                    Some(s) => if s != before.current_authority {
                        Some((before.current_authority, s))
                    } else {
                        None
                    },
                    None => None,
                })
                &&& c.subscribe@.to_set() == shards_in_range@.to_set().difference(
                    before.active_subscriptions@,
                )
                &&& c.unsubscribe@.to_set() == before.active_subscriptions@.difference(
                    shards_in_range@.to_set(),
                )
            },
            c.authority_change matches Some((a, b)) ==> {
                &&& old(self).players@.dom().contains(client_id)
                &&& old(self).players@[client_id].current_authority == a
                &&& shard_here == Some(b)
                &&& a != b
            },
    {
        let ghost old_players = self.players@;
        let state = match self.players.remove(&client_id) {
            Some(s) => s,
            None => {
                let initial = match shard_here {
                    Some(s) => s,
                    None => 0,
                };
                PlayerState { current_authority: initial, active_subscriptions: HashSet::new() }
            },
        };
        proof {
            if !old_players.dom().contains(client_id) {
                assert(state.active_subscriptions@ =~= Set::<u32>::empty());
            }
        }
        let previous = state.current_authority;
        let mut authority_change: Option<(u32, u32)> = None;
        let mut current = previous;
        if let Some(new_authority) = shard_here {
            if previous != new_authority {
                authority_change = Some((previous, new_authority));
                current = new_authority;
            }
        }
        let wanted = shard_set(shards_in_range);
        let subscribe = set_difference(&wanted, &state.active_subscriptions);
        let unsubscribe = set_difference(&state.active_subscriptions, &wanted);
        self.players.insert(
            client_id,
            PlayerState { current_authority: current, active_subscriptions: wanted },
        );
        proof {
            assert(self.players@.dom() =~= old_players.dom().insert(client_id));
            if !old_players.dom().contains(client_id) {
                assert(unsubscribe@.to_set() =~= Set::<u32>::empty());
                assert(subscribe@.to_set() =~= shards_in_range@.to_set());
                if unsubscribe@.len() > 0 {
                    assert(unsubscribe@.to_set().contains(unsubscribe@[0]));
                }
            }
        }
        SubscriptionChanges { authority_change, subscribe, unsubscribe }
    }
}

/// Applying the reported changes to the previous subscriptions gives exactly
/// the shards in range, and no shard is both subscribed and unsubscribed.
pub proof fn law_changes_reach_wanted(prev: Set<u32>, wanted: Set<u32>)
    ensures
        prev.union(wanted.difference(prev)).difference(prev.difference(wanted)) == wanted,
        wanted.difference(prev).disjoint(prev.difference(wanted)),
{
    assert(prev.union(wanted.difference(prev)).difference(prev.difference(wanted)) =~= wanted);
}

} // verus!
