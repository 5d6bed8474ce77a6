//! The fleet of dedicated servers as the orchestrator and the gatekeeper see
//! it: heartbeats become records (one per server, field name to text), the
//! orchestrator starts servers when too few are available, and the
//! gatekeeper sends players to the first server with room.

use vstd::prelude::*;
use crate::decimal::{
    char_codes, decimal_chars, decimal_string, lemma_decimal_chars_codes, law_parse_reads_printed_digits,
    parse_unsigned, parse_unsigned_string,
};

verus! {

/// What a dedicated server reports about itself, periodically.
#[derive(Debug, Clone)]
pub struct Heartbeat {
    pub id: String,
    pub ip: String,
    pub port: u16,
    pub zone: String,
    pub player_count: usize,
    pub max_players: usize,
}

/// Messages between a client and a dedicated server.
#[derive(Debug)]
pub enum GameMessage {
    Join { username: String },
    Welcome { player_id: String },
}

/// Where a player should connect.
#[derive(Debug)]
pub struct ServerInfo {
    pub ip: String,
    pub port: u16,
    pub zone: String,
}

#[derive(Debug)]
pub struct LoginResponse {
    pub player_id: String,
    pub server: ServerInfo,
}

#[derive(Debug)]
pub struct LoginRequest {
    pub username: String,
    pub password: String,
}

/// The status a heartbeat gives its server: `full` once it has as many
/// players as it accepts, `available` before.
pub open spec fn status_text(player_count: usize, max_players: usize) -> Seq<char> {
    if player_count >= max_players {
        "full"@
    } else {
        "available"@
    }
}

/// The status a server has in the fleet.
pub fn server_status(hb: &Heartbeat) -> (s: String)
    ensures
        s@ == status_text(hb.player_count, hb.max_players),
{
    if hb.player_count >= hb.max_players {
        "full".to_owned()
    } else {
        "available".to_owned()
    }
}

/// The key under which a server's record is kept: `server:` and its id.
pub fn server_key(id: &String) -> (k: String)
    ensures
        k@ == "server:"@ + id@,
{
    let mut k = "server:".to_owned();
    k.append(id.as_str());
    k
}

/// One field of a record: its name and its text.
pub open spec fn field_view(f: (String, String)) -> (Seq<char>, Seq<char>) {
    (f.0@, f.1@)
}

/// The record a heartbeat writes, field by field, in the order written.
pub open spec fn heartbeat_record(hb: Heartbeat) -> Seq<(Seq<char>, Seq<char>)> {
    seq![
        ("status"@, status_text(hb.player_count, hb.max_players)),
        ("ip"@, hb.ip@),
        ("port"@, decimal_chars(hb.port as nat)),
        ("zone"@, hb.zone@),
        ("player_count"@, decimal_chars(hb.player_count as nat)),
        ("max_players"@, decimal_chars(hb.max_players as nat)),
    ]
}

/// The fields that the orchestrator stores for a heartbeat.
pub fn heartbeat_fields(hb: &Heartbeat) -> (fields: Vec<(String, String)>)
    ensures
        fields@.map_values(|f: (String, String)| field_view(f)) == heartbeat_record(*hb),
        lookup_field(fields@.map_values(|f: (String, String)| field_view(f)), "status"@) == Some(
            if hb.player_count >= hb.max_players {
                "full"@
            } else {
                "available"@
            },
        ),
{
    let mut fields: Vec<(String, String)> = Vec::new();
    fields.push(("status".to_owned(), server_status(hb)));
    fields.push(("ip".to_owned(), hb.ip.clone()));
    fields.push(("port".to_owned(), decimal_string(hb.port as u64)));
    fields.push(("zone".to_owned(), hb.zone.clone()));
    fields.push(("player_count".to_owned(), decimal_string(hb.player_count as u64)));
    fields.push(("max_players".to_owned(), decimal_string(hb.max_players as u64)));
    assert(fields@.map_values(|f: (String, String)| field_view(f)) =~= heartbeat_record(*hb));
    proof {
        lemma_lookup_at(heartbeat_record(*hb), "status"@, 0);
    }
    fields
}

/// The text of the first field called `key`.
pub open spec fn lookup_field(fs: Seq<(Seq<char>, Seq<char>)>, key: Seq<char>) -> Option<Seq<char>>
    decreases fs.len(),
{
    if fs.len() == 0 {
        None
    } else if fs[0].0 == key {
        Some(fs[0].1)
    } else {
        lookup_field(fs.subrange(1, fs.len() as int), key)
    }
}

/// The number a field holds, read as `str::parse` reads an unsigned type
/// whose largest value is `max`.
pub open spec fn number_field(fs: Seq<(Seq<char>, Seq<char>)>, key: Seq<char>, max: nat) -> Option<
    nat,
> {
    match lookup_field(fs, key) {
        Some(t) => parse_unsigned(char_codes(t), max),
        None => None,
    }
}

/// What the gatekeeper reads in a server's record.
pub enum RecordReading {
    /// The server has room; players go to this address and zone.
    Selected { ip: Seq<char>, port: u16, zone: Seq<char> },
    /// The server has no room.
    Full,
    /// A field the gatekeeper needs is missing or not a number.
    Unreadable,
}

/// A record offers room when both counts read as numbers and there are
/// fewer players than the maximum; it is then unreadable unless the
/// address, a 16-bit port and the zone can all be read.
pub open spec fn read_record(fs: Seq<(Seq<char>, Seq<char>)>) -> RecordReading {
    let players = number_field(fs, "player_count"@, usize::MAX as nat);
    let max = number_field(fs, "max_players"@, usize::MAX as nat);
    if players is None || max is None {
        RecordReading::Unreadable
    } else if players->Some_0 < max->Some_0 {
        let ip = lookup_field(fs, "ip"@);
        let port = number_field(fs, "port"@, u16::MAX as nat);
        let zone = lookup_field(fs, "zone"@);
        if ip is Some && port is Some && zone is Some {
            RecordReading::Selected {
                ip: ip->Some_0,
                port: port->Some_0 as u16,
                zone: zone->Some_0,
            }
        } else {
            RecordReading::Unreadable
        }
    } else {
        RecordReading::Full
    }
}

/// The server the gatekeeper picks among records read in order, `None` for
/// a record that could not be fetched: the first record with room, unless a
/// record before it could not be fetched or read.
pub open spec fn select_record(rs: Seq<Option<Seq<(Seq<char>, Seq<char>)>>>) -> Option<RecordReading>
    decreases rs.len(),
{
    if rs.len() == 0 {
        None
    } else {
        match rs[0] {
            None => None,
            Some(fs) => match read_record(fs) {
                RecordReading::Full => select_record(rs.subrange(1, rs.len() as int)),
                RecordReading::Unreadable => None,
                sel => Some(sel),
            },
        }
    }
}

/// A server's record as fetched from the store.
pub struct ServerRecord {
    pub fields: Vec<(String, String)>,
}

impl ServerRecord {
    pub open spec fn view_fields(self) -> Seq<(Seq<char>, Seq<char>)> {
        self.fields@.map_values(|f: (String, String)| field_view(f))
    }

    /// The text of the first field called `key`.
    pub fn get(&self, key: &str) -> (r: Option<String>)
        ensures
            r matches Some(s) ==> lookup_field(self.view_fields(), key@) == Some(s@),
            r is None ==> lookup_field(self.view_fields(), key@) is None,
    {
        let k = key.to_owned();
        let ghost fs = self.view_fields();
        let mut i: usize = 0;
        assert(fs.subrange(0, fs.len() as int) =~= fs);
        while i < self.fields.len()
            invariant
                i <= self.fields@.len(),
                fs == self.view_fields(),
                fs.len() == self.fields@.len(),
                k@ == key@,
                lookup_field(fs, key@) == lookup_field(fs.subrange(i as int, fs.len() as int), key@),
            decreases self.fields@.len() - i,
        {
            let ghost rest = fs.subrange(i as int, fs.len() as int);
            assert(rest[0] == field_view(self.fields@[i as int]));
            if self.fields[i].0 == k {
                return Some(self.fields[i].1.clone());
            }
            assert(rest.subrange(1, rest.len() as int) =~= fs.subrange(i + 1, fs.len() as int));
            i = i + 1;
        }
        None
    }

    fn get_number(&self, key: &str, max: u64) -> (r: Option<u64>)
        ensures
            r == (match number_field(self.view_fields(), key@, max as nat) {
                Some(v) => Some(v as u64),
                None => None::<u64>,
            }),
    {
        match self.get(key) {
            Some(text) => parse_unsigned_string(&text, max),
            None => None,
        }
    }
}

/// What a record says about its server, with the address to use.
pub enum RecordVerdict {
    Selected(ServerInfo),
    Full,
    Unreadable,
}

pub open spec fn verdict_reads(v: RecordVerdict, r: RecordReading) -> bool {
    match (v, r) {
        (RecordVerdict::Selected(s), RecordReading::Selected { ip, port, zone }) => s.ip@ == ip
            && s.port == port && s.zone@ == zone,
        (RecordVerdict::Full, RecordReading::Full) => true,
        (RecordVerdict::Unreadable, RecordReading::Unreadable) => true,
        _ => false,
    }
}

/// Reads one server record as [`read_record`] says.
pub fn examine_record(record: &ServerRecord) -> (v: RecordVerdict)
    ensures
        verdict_reads(v, read_record(record.view_fields())),
{
    let players = match record.get_number("player_count", usize::MAX as u64) {
        Some(p) => p,
        None => {
            return RecordVerdict::Unreadable;
        },
    };
    let max = match record.get_number("max_players", usize::MAX as u64) {
        Some(m) => m,
        None => {
            return RecordVerdict::Unreadable;
        },
    };
    if players < max {
        let ip = match record.get("ip") {
            Some(s) => s,
            None => {
                return RecordVerdict::Unreadable;
            },
        };
        let port = match record.get_number("port", 0xffffu64) {
            Some(p) => p as u16,
            None => {
                return RecordVerdict::Unreadable;
            },
        };
        let zone = match record.get("zone") {
            Some(s) => s,
            None => {
                return RecordVerdict::Unreadable;
            },
        };
        RecordVerdict::Selected(ServerInfo { ip, port, zone })
    } else {
        RecordVerdict::Full
    }
}

pub open spec fn records_view(records: Seq<Option<ServerRecord>>) -> Seq<
    Option<Seq<(Seq<char>, Seq<char>)>>,
> {
    records.map_values(
        |r: Option<ServerRecord>|
            match r {
                Some(rec) => Some(rec.view_fields()),
                None => None,
            },
    )
}

/// The server a player is sent to, among the records of all servers in the
/// order the store lists them (`None` where fetching a record failed).
pub fn find_available_server(records: &Vec<Option<ServerRecord>>) -> (r: Option<ServerInfo>)
    ensures
        match select_record(records_view(records@)) {
            Some(RecordReading::Selected { ip, port, zone }) => r matches Some(s) && s.ip@ == ip
                && s.port == port && s.zone@ == zone,
            _ => r is None,
        },
{
    let ghost rs = records_view(records@);
    let mut i: usize = 0;
    assert(rs.subrange(0, rs.len() as int) =~= rs);
    while i < records.len()
        invariant
            i <= records@.len(),
            rs == records_view(records@),
            rs.len() == records@.len(),
            select_record(rs) == select_record(rs.subrange(i as int, rs.len() as int)),
        decreases records@.len() - i,
    {
        let ghost rest = rs.subrange(i as int, rs.len() as int);
        assert(rest[0] == rs[i as int]);
        assert(rest.subrange(1, rest.len() as int) =~= rs.subrange(i + 1, rs.len() as int));
        match &records[i] {
            None => {
                return None;
            },
            Some(record) => {
                match examine_record(record) {
                    RecordVerdict::Selected(info) => {
                        return Some(info);
                    },
                    RecordVerdict::Unreadable => {
                        return None;
                    },
                    RecordVerdict::Full => {},
                }
            },
        }
        i = i + 1;
    }
    None
}

/// How many statuses say `available`; a status that could not be read
/// counts as `full`.
pub open spec fn available_count(statuses: Seq<Option<Seq<char>>>) -> nat
    decreases statuses.len(),
{
    if statuses.len() == 0 {
        0
    } else {
        available_count(statuses.drop_last()) + if statuses.last() == Some("available"@) {
            1nat
        } else {
            0nat
        }
    }
}

pub open spec fn statuses_view(statuses: Seq<Option<String>>) -> Seq<Option<Seq<char>>> {
    statuses.map_values(
        |s: Option<String>|
            match s {
                Some(t) => Some(t@),
                None => None,
            },
    )
}

/// Counts the servers whose status is `available`.
pub fn count_available(statuses: &Vec<Option<String>>) -> (n: usize)
    ensures
        n == available_count(statuses_view(statuses@)),
{
    let ghost ss = statuses_view(statuses@);
    let available = "available".to_owned();
    let mut n: usize = 0;
    let mut i: usize = 0;
    while i < statuses.len()
        invariant
            i <= statuses@.len(),
            ss == statuses_view(statuses@),
            available@ == "available"@,
            n == available_count(ss.subrange(0, i as int)),
            n <= i,
        decreases statuses@.len() - i,
    {
        assert(ss.subrange(0, i + 1).drop_last() =~= ss.subrange(0, i as int));
        match &statuses[i] {
            Some(s) => {
                if *s == available {
                    n = n + 1;
                }
            },
            None => {},
        }
        i = i + 1;
    }
    assert(ss.subrange(0, ss.len() as int) =~= ss);
    n
}

/// One check of the scaling rule, from the next port and how many servers
/// are available: the port to start a server on, if one must be started,
/// and the next port afterwards.
pub open spec fn scaler_step(port: u16, available: nat, min_available: usize) -> (Option<u16>, u16) {
    if available < min_available {
        (Some(port), (port + 1) as u16)
    } else {
        (None, port)
    }
}

/// The ports servers are started on over a run of checks that see the
/// given counts of available servers, in order.
pub open spec fn spawned_over_run(port: u16, min_available: usize, counts: Seq<nat>) -> Seq<u16>
    decreases counts.len(),
{
    if counts.len() == 0 {
        Seq::empty()
    } else {
        let (spawn, next) = scaler_step(port, counts[0], min_available);
        match spawn {
            Some(p) => seq![p] + spawned_over_run(next, min_available, counts.drop_first()),
            None => spawned_over_run(next, min_available, counts.drop_first()),
        }
    }
}

/// How many checks of a run must start a server.
pub open spec fn spawn_count(min_available: usize, counts: Seq<nat>) -> nat
    decreases counts.len(),
{
    if counts.len() == 0 {
        0
    } else {
        (if counts[0] < min_available {
            1nat
        } else {
            0nat
        }) + spawn_count(min_available, counts.drop_first())
    }
}

/// Over any run of checks, servers are started on consecutive ports from
/// the first one: the k-th start uses the first port plus k, so no port is
/// handed out twice and none is skipped (as long as every start has a
/// 16-bit port, the last one possibly `u16::MAX`).
pub proof fn law_spawned_ports_consecutive(port: u16, min_available: usize, counts: Seq<nat>)
    requires
        port + spawn_count(min_available, counts) <= u16::MAX + 1,
    ensures
        spawned_over_run(port, min_available, counts) == Seq::new(
            spawn_count(min_available, counts),
            |k: int| (port + k) as u16,
        ),
    decreases counts.len(),
{
    if counts.len() > 0 {
        let rest = counts.drop_first();
        let (spawn, next) = scaler_step(port, counts[0], min_available);
        law_spawned_ports_consecutive(next, min_available, rest);
        assert(spawned_over_run(port, min_available, counts) =~= Seq::new(
            spawn_count(min_available, counts),
            |k: int| (port + k) as u16,
        ));
    } else {
        assert(spawned_over_run(port, min_available, counts) =~= Seq::new(
            spawn_count(min_available, counts),
            |k: int| (port + k) as u16,
        ));
    }
}

/// The orchestrator's scaling rule: at each check, when fewer servers than
/// the minimum are available, one more is started on the next port.
pub struct Scaler {
    pub current_port: u16,
    pub min_available_servers: usize,
}

impl Scaler {
    pub fn new(first_port: u16, min_available_servers: usize) -> (s: Self)
        ensures
            s.current_port == first_port,
            s.min_available_servers == min_available_servers,
    {
        Scaler { current_port: first_port, min_available_servers }
    }

    /// One check over the statuses of the known servers: the port of the
    /// server to start, if one must be started.
    pub fn tick(&mut self, statuses: &Vec<Option<String>>) -> (spawn: Option<u16>)
        requires
            available_count(statuses_view(statuses@)) < old(self).min_available_servers ==> old(
                self,
            ).current_port < u16::MAX,
        ensures
            final(self).min_available_servers == old(self).min_available_servers,
            if available_count(statuses_view(statuses@)) < old(self).min_available_servers {
                spawn == Some(old(self).current_port) && final(self).current_port == old(
                    self,
                ).current_port + 1
            } else {
                spawn is None && final(self).current_port == old(self).current_port
            },
            (spawn, final(self).current_port) == scaler_step(
                old(self).current_port,
                available_count(statuses_view(statuses@)),
                old(self).min_available_servers,
            ),
    {
        let available = count_available(statuses);
        if available < self.min_available_servers {
            let port = self.current_port;
            self.current_port = port + 1;
            Some(port)
        } else {
            None
        }
    }
}

/// The first field called `key` is at `k` when none before it is.
pub proof fn lemma_lookup_at(fs: Seq<(Seq<char>, Seq<char>)>, key: Seq<char>, k: int)
    requires
        0 <= k < fs.len(),
        fs[k].0 == key,
        forall|j: int| 0 <= j < k ==> fs[j].0 != key,
    ensures
        lookup_field(fs, key) == Some(fs[k].1),
    decreases k,
{
    if k > 0 {
        let rest = fs.subrange(1, fs.len() as int);
        assert forall|j: int| 0 <= j < k - 1 implies rest[j].0 != key by {
            assert(rest[j] == fs[j + 1]);
        }
        lemma_lookup_at(rest, key, k - 1);
    }
}

/// What the gatekeeper reads back from the record of a heartbeat: a server
/// with room, at the heartbeat's address, port and zone, exactly when the
/// heartbeat reports fewer players than its maximum; a full server
/// otherwise. The stored status says `full` when the heartbeat reports at
/// least as many players as its maximum, `available` otherwise.
pub proof fn law_heartbeat_record_read_back(hb: Heartbeat)
    ensures
        read_record(heartbeat_record(hb)) == (if hb.player_count < hb.max_players {
            RecordReading::Selected { ip: hb.ip@, port: hb.port, zone: hb.zone@ }
        } else {
            RecordReading::Full
        }),
        (status_text(hb.player_count, hb.max_players) == "available"@) == (hb.player_count
            < hb.max_players),
        lookup_field(heartbeat_record(hb), "status"@) == Some(
            if hb.player_count >= hb.max_players {
                "full"@
            } else {
                "available"@
            },
        ),
{
    let fs = heartbeat_record(hb);
    lemma_lookup_at(fs, "status"@, 0);
    reveal_strlit("status");
    reveal_strlit("ip");
    reveal_strlit("port");
    reveal_strlit("zone");
    reveal_strlit("player_count");
    reveal_strlit("max_players");
    reveal_strlit("available");
    reveal_strlit("full");
    assert("status"@.len() == 6 && "ip"@.len() == 2 && "port"@.len() == 4 && "zone"@.len() == 4);
    assert("player_count"@.len() == 12 && "max_players"@.len() == 11);
    assert("port"@[0] != "zone"@[0]);
    assert("available"@.len() != "full"@.len());
    lemma_lookup_at(fs, "ip"@, 1);
    lemma_lookup_at(fs, "port"@, 2);
    lemma_lookup_at(fs, "zone"@, 3);
    lemma_lookup_at(fs, "player_count"@, 4);
    lemma_lookup_at(fs, "max_players"@, 5);
    lemma_decimal_chars_codes(hb.port as nat);
    lemma_decimal_chars_codes(hb.player_count as nat);
    lemma_decimal_chars_codes(hb.max_players as nat);
    law_parse_reads_printed_digits(hb.port as nat, u16::MAX as nat);
    law_parse_reads_printed_digits(hb.player_count as nat, usize::MAX as nat);
    law_parse_reads_printed_digits(hb.max_players as nat, usize::MAX as nat);
}

} // verus!
