//! Request router: maps a typed incoming action to one authenticator
//! operation and its result to the uniform response envelope.

use vstd::prelude::*;
use vstd::string::*;
use crate::auth::{StorageAuthenticator, credential_of, login_allowed};
use crate::codec::{exp_at, spec_parse, token_seq, well_signed};
use crate::error::Error;
use crate::store::AuthStorage;
use crate::strutil::str_eq;

verus! {

#[derive(Clone, Copy, Debug, PartialEq, Eq, Structural)]
pub enum RequestAction {
    Login,
    Logout,
    SignUp,
    RefreshToken,
    VerifyToken,
    ResetPassword,
}

/// The action a request word names, if any.
pub open spec fn spec_action_of(s: Seq<char>) -> Option<RequestAction> {
    if s == "login"@ {
        Some(RequestAction::Login)
    } else if s == "logout"@ {
        Some(RequestAction::Logout)
    } else if s == "register"@ {
        Some(RequestAction::SignUp)
    } else if s == "refresh_token"@ {
        Some(RequestAction::RefreshToken)
    } else if s == "verify_token"@ {
        Some(RequestAction::VerifyToken)
    } else if s == "reset_password"@ {
        Some(RequestAction::ResetPassword)
    } else {
        None
    }
}

/// The request word for each action.
pub open spec fn spec_action_name(a: RequestAction) -> Seq<char> {
    match a {
        RequestAction::Login => "login"@,
        RequestAction::Logout => "logout"@,
        RequestAction::SignUp => "register"@,
        RequestAction::RefreshToken => "refresh_token"@,
        RequestAction::VerifyToken => "verify_token"@,
        RequestAction::ResetPassword => "reset_password"@,
    }
}

impl RequestAction {
    pub fn from_str(action: &str) -> (r: Option<Self>)
        ensures
            r == spec_action_of(action@),
    {
        if str_eq(action, "login") {
            Some(RequestAction::Login)
        } else if str_eq(action, "logout") {
            Some(RequestAction::Logout)
        } else if str_eq(action, "register") {
            Some(RequestAction::SignUp)
        } else if str_eq(action, "refresh_token") {
            Some(RequestAction::RefreshToken)
        } else if str_eq(action, "verify_token") {
            Some(RequestAction::VerifyToken)
        } else if str_eq(action, "reset_password") {
            Some(RequestAction::ResetPassword)
        } else {
            None
        }
    }

    /// The request word for this action.
    pub fn as_str(&self) -> (r: &'static str)
        ensures
            r@ == spec_action_name(*self),
    {
        match self {
            RequestAction::Login => "login",
            RequestAction::Logout => "logout",
            RequestAction::SignUp => "register",
            RequestAction::RefreshToken => "refresh_token",
            RequestAction::VerifyToken => "verify_token",
            RequestAction::ResetPassword => "reset_password",
        }
    }
}

pub struct LoginRequest {
    pub email: String,
    pub password: String,
}

pub struct LogoutRequest {
    pub token: String,
}

pub struct RegisterRequest {
    pub email: String,
    pub password: String,
}

pub struct RefreshTokenRequest {
    pub token: String,
}

pub struct VerifyTokenRequest {
    pub token: String,
}

pub struct ResetPasswordRequest {
    pub email: String,
    pub new_password: String,
}

/// The uniform outbound envelope; `token` is present only on login and
/// refresh successes.
pub struct Response {
    pub success: bool,
    pub message: String,
    pub token: Option<String>,
}

impl Response {
    pub fn new(success: bool, message: String, token: Option<String>) -> (r: Self)
        ensures
            r.success == success,
            r.message == message,
            r.token == token,
    {
        Response { success, message, token }
    }
}

/// One parsed incoming request; `Invalid` stands for an unknown action.
pub enum AuthRequest {
    Login(LoginRequest),
    Logout(LogoutRequest),
    SignUp(RegisterRequest),
    RefreshToken(RefreshTokenRequest),
    VerifyToken(VerifyTokenRequest),
    ResetPassword(ResetPasswordRequest),
    Invalid,
}

/// The non-leaking message for each failure kind; internal detail is never
/// placed in a response.
pub open spec fn spec_error_message(e: Error) -> Seq<char> {
    match e {
        Error::InvalidCredentials => "Invalid credentials"@,
        Error::UserNotFound => "User not found"@,
        Error::DuplicateEmail => "Duplicate email"@,
        Error::TokenExpired => "Token expired"@,
        Error::TokenInvalid => "Token invalid"@,
        Error::StoreUnavailable => "Storage unavailable"@,
        Error::SigningUnavailable => "Signing unavailable"@,
        Error::Other => "Other error"@,
    }
}

/// A response message that leaks no internal detail: one of the fixed
/// per-kind failure messages, or the fixed reply to an unknown action.
pub open spec fn nonleaking_message(m: Seq<char>) -> bool {
    (exists|e: Error| m == #[trigger] spec_error_message(e)) || m == "Invalid action"@
}

pub fn error_message(e: &Error) -> (r: String)
    ensures
        r@ == spec_error_message(*e),
{
    match e {
        Error::InvalidCredentials => String::from_str("Invalid credentials"),
        Error::UserNotFound => String::from_str("User not found"),
        Error::DuplicateEmail => String::from_str("Duplicate email"),
        Error::TokenExpired => String::from_str("Token expired"),
        Error::TokenInvalid => String::from_str("Token invalid"),
        Error::StoreUnavailable => String::from_str("Storage unavailable"),
        Error::SigningUnavailable => String::from_str("Signing unavailable"),
        Error::Other => String::from_str("Other error"),
    }
}

/// Dispatches one typed request to the authenticator and wraps the outcome in
/// the response envelope. An unknown action invokes no operation.
pub fn handle_request<S: AuthStorage>(
    auth: &mut StorageAuthenticator<S>,
    request: AuthRequest,
    now: u64,
) -> (r: Response)
    ensures
        final(auth).key() == old(auth).key(),
        final(auth).ttl() == old(auth).ttl(),
        final(auth).reliable() == old(auth).reliable(),
        final(auth).revoke_on_refresh() == old(auth).revoke_on_refresh(),
        !r.success ==> r.token is None,
        !r.success ==> nonleaking_message(r.message@),
        (match request {
            AuthRequest::Login(q) => {
                &&& final(auth).users() == old(auth).users()
                &&& final(auth).revoked() == old(auth).revoked()
                &&& r.success ==> login_allowed(old(auth).users(), q.email@, q.password@) && (
                r.token matches Some(t) && t@ == token_seq(
                    old(auth).users()[q.email@].0 as nat,
                    now as nat,
                    exp_at(now as nat, old(auth).ttl() as nat),
                    old(auth).key(),
                )) && r.message@ == "Logged in successfully"@
                &&& old(auth).reliable() ==> (r.success <==> login_allowed(
                    old(auth).users(),
                    q.email@,
                    q.password@,
                ))
                &&& old(auth).reliable() && !r.success ==> r.message@ == spec_error_message(
                    Error::InvalidCredentials,
                )
            },
            AuthRequest::Logout(q) => {
                &&& final(auth).users() == old(auth).users()
                &&& (r.success <==> well_signed(q.token@, old(auth).key()))
                &&& r.success ==> r.message@ == "Logged out successfully"@ && r.token is None
                &&& !r.success ==> final(auth).revoked() == old(auth).revoked() && r.message@
                    == spec_error_message(Error::TokenInvalid)
                &&& (match spec_parse(q.token@) {
                    Some(p) => r.success ==> final(auth).revoked() == (if (now as nat) < p.2 {
                        old(auth).revoked().insert(((p.0 as u64), (p.1 as u64)))
                    } else {
                        old(auth).revoked()
                    }),
                    None => !r.success,
                })
            },
            AuthRequest::SignUp(q) => {
                &&& final(auth).revoked() == old(auth).revoked()
                &&& r.token is None
                &&& r.success ==> q.email@.len() > 0 && q.password@.len() > 0 && !old(
                    auth,
                ).users().dom().contains(q.email@) && (exists|id: u64|
                    final(auth).users() == #[trigger] old(auth).users().insert(
                        q.email@,
                        (id, credential_of(q.email@, q.password@)),
                    )) && r.message@ == "Registered successfully"@
                &&& !r.success ==> final(auth).users() == old(auth).users()
                &&& old(auth).reliable() ==> (r.success <==> (q.email@.len() > 0 && q.password@.len()
                    > 0 && !old(auth).users().dom().contains(q.email@)))
                &&& old(auth).reliable() && !r.success ==> r.message@ == (if q.email@.len() == 0
                    || q.password@.len() == 0 {
                    spec_error_message(Error::InvalidCredentials)
                } else {
                    spec_error_message(Error::DuplicateEmail)
                })
            },
            AuthRequest::RefreshToken(q) => {
                &&& final(auth).users() == old(auth).users()
                &&& (r.success <==> old(auth).token_valid(q.token@, now))
                &&& r.success ==> (match spec_parse(q.token@) {
                    Some(p) => (r.token matches Some(t) && t@ == token_seq(
                        p.0,
                        now as nat,
                        exp_at(now as nat, old(auth).ttl() as nat),
                        old(auth).key(),
                    )) && r.message@ == "Token refreshed successfully"@,
                    None => false,
                })
                &&& !r.success ==> final(auth).revoked() == old(auth).revoked() && r.message@ == (
                if well_signed(q.token@, old(auth).key()) && (match spec_parse(q.token@) {
                    Some(p) => (now as nat) >= p.2,
                    None => false,
                }) {
                    spec_error_message(Error::TokenExpired)
                } else {
                    spec_error_message(Error::TokenInvalid)
                })
            },
            AuthRequest::VerifyToken(q) => {
                &&& final(auth).users() == old(auth).users()
                &&& final(auth).revoked() == old(auth).revoked()
                &&& r.success
                &&& r.token is None
                &&& r.message@ == (if old(auth).token_valid(q.token@, now) {
                    "Token is valid"@
                } else {
                    "Token is invalid"@
                })
            },
            AuthRequest::ResetPassword(q) => {
                &&& final(auth).revoked() == old(auth).revoked()
                &&& r.token is None
                &&& r.success ==> old(auth).users().dom().contains(q.email@) && final(auth).users()
                    == old(auth).users().insert(
                    q.email@,
                    (old(auth).users()[q.email@].0, credential_of(q.email@, q.new_password@)),
                ) && r.message@ == "Password reset successfully"@
                &&& !r.success ==> final(auth).users() == old(auth).users()
                &&& old(auth).reliable() ==> (r.success <==> old(auth).users().dom().contains(
                    q.email@,
                ))
                &&& old(auth).reliable() && !r.success ==> r.message@ == spec_error_message(
                    Error::UserNotFound,
                )
            },
            AuthRequest::Invalid => {
                &&& final(auth).users() == old(auth).users()
                &&& final(auth).revoked() == old(auth).revoked()
                &&& !r.success
                &&& r.message@ == "Invalid action"@
                &&& r.token is None
            },
        }),
{
    match request {
        AuthRequest::Login(q) => {
            match auth.login(q.email.as_str(), q.password.as_str(), now) {
                Ok(token) => Response::new(
                    true,
                    String::from_str("Logged in successfully"),
                    Some(token),
                ),
                Err(e) => Response::new(false, error_message(&e), None),
            }
        },
        AuthRequest::Logout(q) => {
            match auth.logout(q.token.as_str(), now) {
                Ok(()) => Response::new(true, String::from_str("Logged out successfully"), None),
                Err(e) => Response::new(false, error_message(&e), None),
            }
        },
        AuthRequest::SignUp(q) => {
            match auth.register(q.email.as_str(), q.password.as_str()) {
                Ok(()) => Response::new(true, String::from_str("Registered successfully"), None),
                Err(e) => Response::new(false, error_message(&e), None),
            }
        },
        AuthRequest::RefreshToken(q) => {
            match auth.refresh_token(q.token.as_str(), now) {
                Ok(token) => Response::new(
                    true,
                    String::from_str("Token refreshed successfully"),
                    Some(token),
                ),
                Err(e) => Response::new(false, error_message(&e), None),
            }
        },
        AuthRequest::VerifyToken(q) => {
            match auth.verify_token(q.token.as_str(), now) {
                Ok(valid) => {
                    if valid {
                        Response::new(true, String::from_str("Token is valid"), None)
                    } else {
                        Response::new(true, String::from_str("Token is invalid"), None)
                    }
                },
                Err(e) => Response::new(false, error_message(&e), None),
            }
        },
        AuthRequest::ResetPassword(q) => {
            match auth.reset_password(q.email.as_str(), q.new_password.as_str()) {
                Ok(()) => Response::new(
                    true,
                    String::from_str("Password reset successfully"),
                    None,
                ),
                Err(e) => Response::new(false, error_message(&e), None),
            }
        },
        AuthRequest::Invalid => Response::new(false, String::from_str("Invalid action"), None),
    }
}

} // verus!
