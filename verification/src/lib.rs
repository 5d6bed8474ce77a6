//! Verified core of a sharded MMO network stack: the binary inter-shard
//! protocol, the publish/subscribe broker, the spatial shard index, the
//! fleet bookkeeping shared by the orchestrator and the gatekeeper, and the
//! authority hand-off rules of a dedicated game server.

pub mod decimal;
pub mod protocol;
pub mod keyed;
pub mod topic;
pub mod topic_table;
pub mod broker;
pub mod quadtree;
pub mod spatial;
pub mod ids;
pub mod fleet;
pub mod login;
pub mod game_server;
