//! The gatekeeper's login: check the credentials, then hand the player a
//! fresh id and the server chosen for it.

use vstd::prelude::*;
use crate::fleet::{LoginRequest, LoginResponse, ServerInfo};
use crate::ids::{is_uuid_v4_text, new_uuid_v4_string};

verus! {

/// Why a login is refused.
#[derive(Debug, Clone, Copy, PartialEq, Eq, Structural)]
pub enum LoginError {
    /// Wrong credentials.
    Unauthorized,
    /// The server store could not be reached.
    InternalServerError,
    /// No server has room.
    ServiceUnavailable,
}

impl LoginError {
    /// The HTTP status that answers this refusal.
    pub fn status_code(&self) -> (c: u16)
        ensures
            c == (match *self {
                LoginError::Unauthorized => 401u16,
                LoginError::InternalServerError => 500u16,
                LoginError::ServiceUnavailable => 503u16,
            }),
    {
        match self {
            LoginError::Unauthorized => 401,
            LoginError::InternalServerError => 500,
            LoginError::ServiceUnavailable => 503,
        }
    }
}

/// Credentials are accepted when the user name is not empty and the
/// password is `1234`.
pub open spec fn credentials_accepted(username: Seq<char>, password: Seq<char>) -> bool {
    username.len() > 0 && password == "1234"@
}

/// Every user name that is not empty is accepted with the password `1234`,
/// whatever its length or characters; nothing else is accepted.
pub proof fn law_login_accepts_any_named_user(username: Seq<char>, password: Seq<char>)
    ensures
        username.len() > 0 ==> credentials_accepted(username, "1234"@),
        credentials_accepted(username, password) ==> username.len() > 0 && password == "1234"@,
{
}

/// Checks the credentials of a login request.
pub fn validate_login(req: &LoginRequest) -> (r: Result<(), LoginError>)
    ensures
        r is Ok <==> credentials_accepted(req.username@, req.password@),
        r is Ok <==> (req.username@.len() > 0 && req.password@ == "1234"@),
        r matches Err(e) ==> e == LoginError::Unauthorized,
{
    let expected = "1234".to_owned();
    if req.username.as_str().is_empty() || req.password != expected {
        Err(LoginError::Unauthorized)
    } else {
        Ok(())
    }
}

/// The answer to an accepted login, given the server found for it (if any)
/// and the id the player gets.
pub fn login_response(server: Option<ServerInfo>, player_id: String) -> (r: Result<
    LoginResponse,
    LoginError,
>)
    ensures
        match server {
            Some(s) => r == Ok::<LoginResponse, LoginError>(LoginResponse { player_id, server: s }),
            None => r == Err::<LoginResponse, LoginError>(LoginError::ServiceUnavailable),
        },
{
    match server {
        Some(s) => Ok(LoginResponse { player_id, server: s }),
        None => Err(LoginError::ServiceUnavailable),
    }
}

/// The answer to an accepted login once a server was looked for: the server
/// and a fresh random player id, or `ServiceUnavailable` when none was
/// found.
pub fn complete_login(server: Option<ServerInfo>) -> (r: Result<LoginResponse, LoginError>)
    ensures
        match server {
            Some(s) => r matches Ok(resp) && resp.server == s && is_uuid_v4_text(resp.player_id@),
            None => r == Err::<LoginResponse, LoginError>(LoginError::ServiceUnavailable),
        },
{
    match server {
        Some(s) => {
            let player_id = new_uuid_v4_string();
            login_response(Some(s), player_id)
        },
        None => login_response(None, String::new()),
    }
}

} // verus!
