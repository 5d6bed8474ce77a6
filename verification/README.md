# mmo_net

The verified core of a small sharded MMO back end, written in Verus.

`src/` is the library, every function of it verified:

- `protocol`: the inter-shard hand-off messages and their byte encoding;
- `topic`, `topic_table`, `broker`: broker topics (`shard:N`), the
  subscription table and the broker's packet handling;
- `quadtree`, `spatial`: the shard index over the world and the spatial
  service's per-client authority and subscriptions;
- `fleet`, `login`, `ids`: heartbeats, server records, server selection,
  scaling and login;
- `game_server`: a dedicated server's players, heartbeat and authority
  hand-off rules;
- `decimal`: decimal text of integers;
- `keyed`: facts about sequences of key/value pairs with distinct keys,
  on which the subscription table and the player registry rest.

`app/` holds the services themselves (sockets, Redis, HTTP, Bevy systems and
float geometry), which call the library for every decision; run one with
`app <gatekeeper|orchestrator|broker|dedicated_server|spatial>`.
