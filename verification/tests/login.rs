use mmo_net::fleet::{LoginRequest, ServerInfo};
use mmo_net::ids::new_uuid_v4_string;
use mmo_net::login::{complete_login, login_response, validate_login, LoginError};

fn req(u: &str, p: &str) -> LoginRequest {
    LoginRequest { username: u.to_string(), password: p.to_string() }
}

fn info() -> ServerInfo {
    ServerInfo { ip: "127.0.0.1".to_string(), port: 7000, zone: "zone_A".to_string() }
}

fn is_uuid_v4(s: &str) -> bool {
    let b = s.as_bytes();
    b.len() == 36
        && b.iter().enumerate().all(|(i, c)| {
            if [8, 13, 18, 23].contains(&i) {
                *c == b'-'
            } else {
                c.is_ascii_digit() || (b'a'..=b'f').contains(c)
            }
        })
        && b[14] == b'4'
        && [b'8', b'9', b'a', b'b'].contains(&b[19])
}

#[test]
fn credentials() {
    assert_eq!(validate_login(&req("alice", "1234")), Ok(()));
    assert_eq!(validate_login(&req("", "1234")), Err(LoginError::Unauthorized));
    assert_eq!(validate_login(&req("alice", "12345")), Err(LoginError::Unauthorized));
    assert_eq!(validate_login(&req("alice", "")), Err(LoginError::Unauthorized));
}

#[test]
fn status_codes() {
    assert_eq!(LoginError::Unauthorized.status_code(), 401);
    assert_eq!(LoginError::InternalServerError.status_code(), 500);
    assert_eq!(LoginError::ServiceUnavailable.status_code(), 503);
}

#[test]
fn response_with_and_without_server() {
    let r = login_response(Some(info()), "p1".to_string()).unwrap();
    assert_eq!(r.player_id, "p1");
    assert_eq!(r.server.port, 7000);
    assert!(matches!(login_response(None, "p1".to_string()), Err(LoginError::ServiceUnavailable)));
}

#[test]
fn complete_login_gives_fresh_uuid() {
    let a = complete_login(Some(info())).unwrap();
    let b = complete_login(Some(info())).unwrap();
    assert!(is_uuid_v4(&a.player_id));
    assert!(is_uuid_v4(&b.player_id));
    assert_ne!(a.player_id, b.player_id);
    assert_eq!(a.server.zone, "zone_A");
    assert!(matches!(complete_login(None), Err(LoginError::ServiceUnavailable)));
}

#[test]
fn uuid_text_shape() {
    for _ in 0..20 {
        assert!(is_uuid_v4(&new_uuid_v4_string()));
    }
}
