use mmo_net::fleet::{
    count_available, examine_record, find_available_server, heartbeat_fields, server_key,
    server_status, Heartbeat, RecordVerdict, Scaler, ServerRecord,
};

fn hb(players: usize, max: usize) -> Heartbeat {
    Heartbeat {
        id: "abc".to_string(),
        ip: "10.0.0.2".to_string(),
        port: 7003,
        zone: "zone_A".to_string(),
        player_count: players,
        max_players: max,
    }
}

fn record(pairs: &[(&str, &str)]) -> ServerRecord {
    ServerRecord { fields: pairs.iter().map(|(k, v)| (k.to_string(), v.to_string())).collect() }
}

#[test]
fn status_full_at_capacity() {
    assert_eq!(server_status(&hb(3, 10)), "available");
    assert_eq!(server_status(&hb(10, 10)), "full");
    assert_eq!(server_status(&hb(11, 10)), "full");
    assert_eq!(server_status(&hb(0, 0)), "full");
}

#[test]
fn key_of_server() {
    assert_eq!(server_key(&"abc".to_string()), "server:abc");
}

#[test]
fn heartbeat_fields_in_order() {
    let f = heartbeat_fields(&hb(3, 10));
    let expected = vec![
        ("status", "available"),
        ("ip", "10.0.0.2"),
        ("port", "7003"),
        ("zone", "zone_A"),
        ("player_count", "3"),
        ("max_players", "10"),
    ];
    let got: Vec<(&str, &str)> = f.iter().map(|(k, v)| (k.as_str(), v.as_str())).collect();
    assert_eq!(got, expected);
}

#[test]
fn heartbeat_record_reads_back() {
    let rec = ServerRecord { fields: heartbeat_fields(&hb(3, 10)) };
    match examine_record(&rec) {
        RecordVerdict::Selected(s) => {
            assert_eq!(s.ip, "10.0.0.2");
            assert_eq!(s.port, 7003);
            assert_eq!(s.zone, "zone_A");
        }
        _ => panic!("expected a selection"),
    }
    let full = ServerRecord { fields: heartbeat_fields(&hb(10, 10)) };
    assert!(matches!(examine_record(&full), RecordVerdict::Full));
}

#[test]
fn unreadable_records() {
    assert!(matches!(examine_record(&record(&[("max_players", "3")])), RecordVerdict::Unreadable));
    assert!(matches!(
        examine_record(&record(&[("player_count", "x"), ("max_players", "3")])),
        RecordVerdict::Unreadable
    ));
    // room, but the port does not fit in 16 bits
    assert!(matches!(
        examine_record(&record(&[
            ("player_count", "1"),
            ("max_players", "3"),
            ("ip", "h"),
            ("port", "70000"),
            ("zone", "z")
        ])),
        RecordVerdict::Unreadable
    ));
    // full servers are not read further
    assert!(matches!(
        examine_record(&record(&[("player_count", "3"), ("max_players", "3")])),
        RecordVerdict::Full
    ));
}

#[test]
fn find_first_server_with_room() {
    let full = ServerRecord { fields: heartbeat_fields(&hb(10, 10)) };
    let mut open = hb(1, 10);
    open.ip = "10.0.0.9".to_string();
    let open = ServerRecord { fields: heartbeat_fields(&open) };
    let found = find_available_server(&vec![Some(full), Some(open)]).unwrap();
    assert_eq!(found.ip, "10.0.0.9");
    assert!(find_available_server(&vec![]).is_none());
    let full = ServerRecord { fields: heartbeat_fields(&hb(10, 10)) };
    assert!(find_available_server(&vec![Some(full), None]).is_none());
    let broken = record(&[("zone", "z")]);
    let open = ServerRecord { fields: heartbeat_fields(&hb(1, 10)) };
    assert!(find_available_server(&vec![Some(broken), Some(open)]).is_none());
}

#[test]
fn scaler_spawns_when_too_few_available() {
    let mut s = Scaler::new(7000, 2);
    let statuses = vec![Some("available".to_string()), Some("full".to_string()), None];
    assert_eq!(count_available(&statuses), 1);
    assert_eq!(s.tick(&statuses), Some(7000));
    assert_eq!(s.tick(&statuses), Some(7001));
    assert_eq!(s.current_port, 7002);
    let enough = vec![Some("available".to_string()), Some("available".to_string())];
    assert_eq!(s.tick(&enough), None);
    assert_eq!(s.current_port, 7002);
}

#[test]
fn scaler_hands_out_consecutive_ports_over_a_run() {
    let mut s = Scaler::new(7000, 1);
    let none_up: Vec<Option<String>> = vec![Some("full".to_string())];
    let one_up = vec![Some("available".to_string())];
    let mut spawned = Vec::new();
    for statuses in [&none_up, &one_up, &none_up, &none_up, &one_up, &none_up] {
        if let Some(p) = s.tick(statuses) {
            spawned.push(p);
        }
    }
    assert_eq!(spawned, vec![7000, 7001, 7002, 7003]);
    assert_eq!(s.current_port, 7004);
}

#[test]
fn scaler_reaches_the_last_port() {
    let mut s = Scaler::new(65534, 1);
    let none_up: Vec<Option<String>> = vec![];
    assert_eq!(s.tick(&none_up), Some(65534));
    assert_eq!(s.current_port, 65535);
}
