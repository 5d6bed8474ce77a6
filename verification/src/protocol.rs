//! The binary protocol that neighbouring shards exchange during an authority
//! hand-off. Every message is a tag byte followed by little-endian fields.
//! Positions and velocities travel as the IEEE-754 bit patterns of their two
//! 32-bit float components; this module never interprets them.

use vstd::prelude::*;
use vstd::bytes::{
    spec_u32_to_le_bytes, spec_u32_from_le_bytes, lemma_auto_spec_u32_to_from_le_bytes,
    u32_from_le_bytes, u32_to_le_bytes,
};

verus! {

pub const TAG_HANDOFF_REQUEST: u8 = 0x20;
pub const TAG_HANDOFF_ACCEPT: u8 = 0x21;
pub const TAG_HANDOFF_REJECT: u8 = 0x22;
pub const TAG_GHOST_UPDATE: u8 = 0x23;
pub const TAG_HANDOFF_COMPLETE: u8 = 0x24;

/// A two-component float vector, held as the bit patterns of its components.
#[derive(Clone, Copy, Debug, PartialEq, Eq, Structural)]
pub struct Vec2Bits {
    pub x: u32,
    pub y: u32,
}

#[derive(Clone, Copy, Debug, PartialEq, Eq)]
pub enum ShardMessage {
    HandoffRequest { entity_id: u32, pos: Vec2Bits, vel: Vec2Bits, state: [u8; 64] },
    HandoffAccept { entity_id: u32 },
    HandoffReject { entity_id: u32 },
    GhostUpdate { entity_id: u32, pos: Vec2Bits, vel: Vec2Bits },
    HandoffComplete { entity_id: u32 },
}

pub open spec fn vec2_bytes(v: Vec2Bits) -> Seq<u8> {
    spec_u32_to_le_bytes(v.x) + spec_u32_to_le_bytes(v.y)
}

/// The bytes that stand for a message on the wire.
pub open spec fn encode_shard_message(m: ShardMessage) -> Seq<u8> {
    match m {
        ShardMessage::HandoffRequest { entity_id, pos, vel, state } => seq![TAG_HANDOFF_REQUEST]
            + spec_u32_to_le_bytes(entity_id) + vec2_bytes(pos) + vec2_bytes(vel) + state@,
        ShardMessage::HandoffAccept { entity_id } => seq![TAG_HANDOFF_ACCEPT] + spec_u32_to_le_bytes(
            entity_id,
        ),
        ShardMessage::HandoffReject { entity_id } => seq![TAG_HANDOFF_REJECT] + spec_u32_to_le_bytes(
            entity_id,
        ),
        ShardMessage::GhostUpdate { entity_id, pos, vel } => seq![TAG_GHOST_UPDATE]
            + spec_u32_to_le_bytes(entity_id) + vec2_bytes(pos) + vec2_bytes(vel),
        ShardMessage::HandoffComplete { entity_id } => seq![TAG_HANDOFF_COMPLETE]
            + spec_u32_to_le_bytes(entity_id),
    }
}

pub open spec fn is_shard_tag(tag: u8) -> bool {
    tag == TAG_HANDOFF_REQUEST || tag == TAG_HANDOFF_ACCEPT || tag == TAG_HANDOFF_REJECT || tag
        == TAG_GHOST_UPDATE || tag == TAG_HANDOFF_COMPLETE
}

/// How many bytes a message with this tag occupies.
pub open spec fn shard_message_len(tag: u8) -> nat {
    if tag == TAG_HANDOFF_REQUEST {
        85
    } else if tag == TAG_GHOST_UPDATE {
        21
    } else if tag == TAG_HANDOFF_ACCEPT || tag == TAG_HANDOFF_REJECT || tag == TAG_HANDOFF_COMPLETE {
        5
    } else {
        0
    }
}

/// A buffer holds a message when it starts with a known tag and is at least
/// as long as that message; bytes after the message are ignored.
pub open spec fn holds_shard_message(b: Seq<u8>) -> bool {
    b.len() > 0 && is_shard_tag(b[0]) && b.len() >= shard_message_len(b[0])
}

/// The message that a received buffer holds: the one whose encoding is the
/// buffer's prefix of the length its tag announces.
pub open spec fn decode_shard_message(b: Seq<u8>) -> Option<ShardMessage> {
    if holds_shard_message(b) {
        Some(
            choose|m: ShardMessage|
                encode_shard_message(m) == b.subrange(0, shard_message_len(b[0]) as int),
        )
    } else {
        None
    }
}

pub open spec fn shard_message_tag(m: ShardMessage) -> u8 {
    match m {
        ShardMessage::HandoffRequest { .. } => TAG_HANDOFF_REQUEST,
        ShardMessage::HandoffAccept { .. } => TAG_HANDOFF_ACCEPT,
        ShardMessage::HandoffReject { .. } => TAG_HANDOFF_REJECT,
        ShardMessage::GhostUpdate { .. } => TAG_GHOST_UPDATE,
        ShardMessage::HandoffComplete { .. } => TAG_HANDOFF_COMPLETE,
    }
}

pub open spec fn shard_message_entity(m: ShardMessage) -> u32 {
    match m {
        ShardMessage::HandoffRequest { entity_id, .. } => entity_id,
        ShardMessage::HandoffAccept { entity_id } => entity_id,
        ShardMessage::HandoffReject { entity_id } => entity_id,
        ShardMessage::GhostUpdate { entity_id, .. } => entity_id,
        ShardMessage::HandoffComplete { entity_id } => entity_id,
    }
}

/// An encoding starts with the message's tag, is exactly as long as that tag
/// announces, and carries each field where a decoder reads it.
pub proof fn lemma_encoding_layout(m: ShardMessage)
    ensures
        ({
            let e = encode_shard_message(m);
            &&& e.len() == shard_message_len(shard_message_tag(m))
            &&& e[0] == shard_message_tag(m)
            &&& is_shard_tag(e[0])
            &&& spec_u32_from_le_bytes(e.subrange(1, 5)) == shard_message_entity(m)
            &&& (m matches ShardMessage::HandoffRequest { pos, vel, state, .. } ==> {
                &&& spec_u32_from_le_bytes(e.subrange(5, 9)) == pos.x
                &&& spec_u32_from_le_bytes(e.subrange(9, 13)) == pos.y
                &&& spec_u32_from_le_bytes(e.subrange(13, 17)) == vel.x
                &&& spec_u32_from_le_bytes(e.subrange(17, 21)) == vel.y
                &&& e.subrange(21, 85) == state@
            })
            &&& (m matches ShardMessage::GhostUpdate { pos, vel, .. } ==> {
                &&& spec_u32_from_le_bytes(e.subrange(5, 9)) == pos.x
                &&& spec_u32_from_le_bytes(e.subrange(9, 13)) == pos.y
                &&& spec_u32_from_le_bytes(e.subrange(13, 17)) == vel.x
                &&& spec_u32_from_le_bytes(e.subrange(17, 21)) == vel.y
            })
        }),
{
    lemma_auto_spec_u32_to_from_le_bytes();
    let e = encode_shard_message(m);
    match m {
        ShardMessage::HandoffRequest { entity_id, pos, vel, state } => {
            assert(e.subrange(1, 5) =~= spec_u32_to_le_bytes(entity_id));
            assert(e.subrange(5, 9) =~= spec_u32_to_le_bytes(pos.x));
            assert(e.subrange(9, 13) =~= spec_u32_to_le_bytes(pos.y));
            assert(e.subrange(13, 17) =~= spec_u32_to_le_bytes(vel.x));
            assert(e.subrange(17, 21) =~= spec_u32_to_le_bytes(vel.y));
            assert(e.subrange(21, 85) =~= state@);
        },
        ShardMessage::GhostUpdate { entity_id, pos, vel } => {
            assert(e.subrange(1, 5) =~= spec_u32_to_le_bytes(entity_id));
            assert(e.subrange(5, 9) =~= spec_u32_to_le_bytes(pos.x));
            assert(e.subrange(9, 13) =~= spec_u32_to_le_bytes(pos.y));
            assert(e.subrange(13, 17) =~= spec_u32_to_le_bytes(vel.x));
            assert(e.subrange(17, 21) =~= spec_u32_to_le_bytes(vel.y));
        },
        ShardMessage::HandoffAccept { entity_id } => {
            assert(e.subrange(1, 5) =~= spec_u32_to_le_bytes(entity_id));
        },
        ShardMessage::HandoffReject { entity_id } => {
            assert(e.subrange(1, 5) =~= spec_u32_to_le_bytes(entity_id));
        },
        ShardMessage::HandoffComplete { entity_id } => {
            assert(e.subrange(1, 5) =~= spec_u32_to_le_bytes(entity_id));
        },
    }
}

/// Two messages with the same encoding are the same message.
pub proof fn lemma_encoding_injective(m1: ShardMessage, m2: ShardMessage)
    requires
        encode_shard_message(m1) == encode_shard_message(m2),
    ensures
        m1 == m2,
{
    lemma_encoding_layout(m1);
    lemma_encoding_layout(m2);
    match m1 {
        ShardMessage::HandoffRequest { state: s1, .. } => {
            match m2 {
                ShardMessage::HandoffRequest { state: s2, .. } => {
                    assert(s1@ =~= s2@);
                    assert(s1 == s2);
                },
                _ => {},
            }
        },
        _ => {},
    }
}

/// An array whose first `n` bytes are those of `s`, and zero after.
pub open spec fn spec_state_array(s: Seq<u8>, n: nat) -> [u8; 64]
    decreases n,
{
    if n == 0 {
        vstd::array::spec_array_fill_for_copy_type::<u8, 64>(0u8)
    } else {
        vstd::array::spec_array_update(spec_state_array(s, (n - 1) as nat), n - 1, s[n - 1])
    }
}

proof fn lemma_spec_state_array(s: Seq<u8>, n: nat)
    requires
        n <= 64,
        n <= s.len(),
    ensures
        forall|i: int| 0 <= i < n ==> spec_state_array(s, n)@[i] == s[i],
    decreases n,
{
    if n > 0 {
        lemma_spec_state_array(s, (n - 1) as nat);
        vstd::array::axiom_spec_array_update(spec_state_array(s, (n - 1) as nat), n - 1, s[n - 1]);
    }
}

/// Every buffer that holds a message holds one whose encoding is exactly the
/// buffer's message-sized prefix.
pub proof fn law_decoded_message_is_prefix(b: Seq<u8>)
    requires
        holds_shard_message(b),
    ensures
        decode_shard_message(b) matches Some(m) && encode_shard_message(m) == b.subrange(
            0,
            shard_message_len(b[0]) as int,
        ),
{
    lemma_auto_spec_u32_to_from_le_bytes();
    let tag = b[0];
    let n = shard_message_len(tag) as int;
    let id = spec_u32_from_le_bytes(b.subrange(1, 5));
    let w = if tag == TAG_HANDOFF_REQUEST || tag == TAG_GHOST_UPDATE {
        let pos = Vec2Bits {
            x: spec_u32_from_le_bytes(b.subrange(5, 9)),
            y: spec_u32_from_le_bytes(b.subrange(9, 13)),
        };
        let vel = Vec2Bits {
            x: spec_u32_from_le_bytes(b.subrange(13, 17)),
            y: spec_u32_from_le_bytes(b.subrange(17, 21)),
        };
        if tag == TAG_HANDOFF_REQUEST {
            let st = b.subrange(21, 85);
            lemma_spec_state_array(st, 64);
            let state = spec_state_array(st, 64);
            assert(state@ =~= st);
            ShardMessage::HandoffRequest { entity_id: id, pos, vel, state }
        } else {
            ShardMessage::GhostUpdate { entity_id: id, pos, vel }
        }
    } else if tag == TAG_HANDOFF_ACCEPT {
        ShardMessage::HandoffAccept { entity_id: id }
    } else if tag == TAG_HANDOFF_REJECT {
        ShardMessage::HandoffReject { entity_id: id }
    } else {
        ShardMessage::HandoffComplete { entity_id: id }
    };
    assert(b.subrange(1, 5).len() == 4);
    assert(encode_shard_message(w) =~= b.subrange(0, n)) by {
        if tag == TAG_HANDOFF_REQUEST || tag == TAG_GHOST_UPDATE {
            assert(b.subrange(5, 9).len() == 4);
            assert(b.subrange(9, 13).len() == 4);
            assert(b.subrange(13, 17).len() == 4);
            assert(b.subrange(17, 21).len() == 4);
        }
    }
    let m = choose|m: ShardMessage| encode_shard_message(m) == b.subrange(0, n);
    assert(encode_shard_message(m) == b.subrange(0, n));
}

/// Decoding what was encoded gives back the message, whatever follows it.
pub proof fn law_decode_inverts_encode(m: ShardMessage, rest: Seq<u8>)
    ensures
        decode_shard_message(encode_shard_message(m) + rest) == Some(m),
{
    let e = encode_shard_message(m);
    let b = e + rest;
    lemma_encoding_layout(m);
    assert(b.subrange(0, e.len() as int) =~= e);
    law_decoded_message_is_prefix(b);
    let d = decode_shard_message(b)->Some_0;
    lemma_encoding_injective(d, m);
}

fn push_u32_le(out: &mut Vec<u8>, v: u32)
    ensures
        final(out)@ == old(out)@ + spec_u32_to_le_bytes(v),
{
    let mut b = u32_to_le_bytes(v);
    out.append(&mut b);
}

fn read_u32_le(bytes: &[u8], at: usize) -> (v: u32)
    requires
        at + 4 <= bytes@.len(),
        bytes@.len() <= usize::MAX,
    ensures
        v == spec_u32_from_le_bytes(bytes@.subrange(at as int, at + 4)),
{
    let end: usize = at + 4;
    u32_from_le_bytes(&bytes[at..end])
}

impl ShardMessage {
    /// Encodes the message for the wire.
    pub fn serialize(&self) -> (bytes: Vec<u8>)
        ensures
            bytes@ == encode_shard_message(*self),
    {
        let mut bytes: Vec<u8> = Vec::new();
        match self {
            ShardMessage::HandoffRequest { entity_id, pos, vel, state } => {
                bytes.push(TAG_HANDOFF_REQUEST);
                push_u32_le(&mut bytes, *entity_id);
                push_u32_le(&mut bytes, pos.x);
                push_u32_le(&mut bytes, pos.y);
                push_u32_le(&mut bytes, vel.x);
                push_u32_le(&mut bytes, vel.y);
                let ghost before = bytes@;
                let mut i: usize = 0;
                while i < 64
                    invariant
                        i <= 64,
                        bytes@ == before + state@.subrange(0, i as int),
                    decreases 64 - i,
                {
                    bytes.push(state[i]);
                    assert(state@.subrange(0, i + 1) =~= state@.subrange(0, i as int).push(
                        state@[i as int],
                    ));
                    i = i + 1;
                }
                assert(state@.subrange(0, 64) =~= state@);
                assert(bytes@ =~= encode_shard_message(*self));
            },
            ShardMessage::HandoffAccept { entity_id } => {
                bytes.push(TAG_HANDOFF_ACCEPT);
                push_u32_le(&mut bytes, *entity_id);
                assert(bytes@ =~= encode_shard_message(*self));
            },
            ShardMessage::HandoffReject { entity_id } => {
                bytes.push(TAG_HANDOFF_REJECT);
                push_u32_le(&mut bytes, *entity_id);
                assert(bytes@ =~= encode_shard_message(*self));
            },
            ShardMessage::GhostUpdate { entity_id, pos, vel } => {
                bytes.push(TAG_GHOST_UPDATE);
                push_u32_le(&mut bytes, *entity_id);
                push_u32_le(&mut bytes, pos.x);
                push_u32_le(&mut bytes, pos.y);
                push_u32_le(&mut bytes, vel.x);
                push_u32_le(&mut bytes, vel.y);
                assert(bytes@ =~= encode_shard_message(*self));
            },
            ShardMessage::HandoffComplete { entity_id } => {
                bytes.push(TAG_HANDOFF_COMPLETE);
                push_u32_le(&mut bytes, *entity_id);
                assert(bytes@ =~= encode_shard_message(*self));
            },
        }
        bytes
    }

    /// The entity the message is about.
    pub fn entity_id(&self) -> (id: u32)
        ensures
            id == shard_message_entity(*self),
    {
        match self {
            ShardMessage::HandoffRequest { entity_id, .. } => *entity_id,
            ShardMessage::HandoffAccept { entity_id } => *entity_id,
            ShardMessage::HandoffReject { entity_id } => *entity_id,
            ShardMessage::GhostUpdate { entity_id, .. } => *entity_id,
            ShardMessage::HandoffComplete { entity_id } => *entity_id,
        }
    }

    /// Decodes a received buffer: `None` unless it starts with a known tag
    /// and is long enough for that message.
    pub fn deserialize(bytes: &[u8]) -> (r: Option<ShardMessage>)
        ensures
            r == decode_shard_message(bytes@),
    {
        if bytes.len() == 0 {
            return None;
        }
        let tag = bytes[0];
        let need: usize = if tag == TAG_HANDOFF_REQUEST {
            85
        } else if tag == TAG_GHOST_UPDATE {
            21
        } else if tag == TAG_HANDOFF_ACCEPT || tag == TAG_HANDOFF_REJECT || tag
            == TAG_HANDOFF_COMPLETE {
            5
        } else {
            return None;
        };
        if bytes.len() < need {
            return None;
        }
        let entity_id = read_u32_le(bytes, 1);
        let m = if tag == TAG_HANDOFF_REQUEST || tag == TAG_GHOST_UPDATE {
            let pos = Vec2Bits { x: read_u32_le(bytes, 5), y: read_u32_le(bytes, 9) };
            let vel = Vec2Bits { x: read_u32_le(bytes, 13), y: read_u32_le(bytes, 17) };
            if tag == TAG_HANDOFF_REQUEST {
                let mut state = [0u8; 64];
                let mut i: usize = 0;
                while i < 64
                    invariant
                        i <= 64,
                        bytes@.len() >= 85,
                        forall|j: int| 0 <= j < i ==> state@[j] == bytes@[21 + j],
                    decreases 64 - i,
                {
                    state[i] = bytes[21 + i];
                    i = i + 1;
                }
                assert(state@ =~= bytes@.subrange(21, 85));
                ShardMessage::HandoffRequest { entity_id, pos, vel, state }
            } else {
                ShardMessage::GhostUpdate { entity_id, pos, vel }
            }
        } else if tag == TAG_HANDOFF_ACCEPT {
            ShardMessage::HandoffAccept { entity_id }
        } else if tag == TAG_HANDOFF_REJECT {
            ShardMessage::HandoffReject { entity_id }
        } else {
            ShardMessage::HandoffComplete { entity_id }
        };
        proof {
            lemma_auto_spec_u32_to_from_le_bytes();
            let b = bytes@;
            let n = need as int;
            assert(b.subrange(1, 5).len() == 4);
            if tag == TAG_HANDOFF_REQUEST || tag == TAG_GHOST_UPDATE {
                assert(b.subrange(5, 9).len() == 4);
                assert(b.subrange(9, 13).len() == 4);
                assert(b.subrange(13, 17).len() == 4);
                assert(b.subrange(17, 21).len() == 4);
            }
            assert(encode_shard_message(m) =~= b.subrange(0, n));
            law_decoded_message_is_prefix(b);
            lemma_encoding_injective(decode_shard_message(b)->Some_0, m);
        }
        Some(m)
    }
}

} // verus!
