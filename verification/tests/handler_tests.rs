use auth::auth::StorageAuthenticator;
use auth::handler::{
    handle_request, AuthRequest, LoginRequest, LogoutRequest, RefreshTokenRequest,
    RegisterRequest, RequestAction, ResetPasswordRequest, Response, VerifyTokenRequest,
    error_message,
};
use auth::error::Error;
use auth::listing::collect_keys;
use auth::store::MemoryAuthStorage;
use auth::strutil::str_eq;

fn make_auth() -> StorageAuthenticator<MemoryAuthStorage> {
    StorageAuthenticator::new(MemoryAuthStorage::new(), b"server-secret".to_vec(), 3600, true)
}

#[test]
fn action_from_str_known_words() {
    assert_eq!(RequestAction::from_str("login"), Some(RequestAction::Login));
    assert_eq!(RequestAction::from_str("logout"), Some(RequestAction::Logout));
    assert_eq!(RequestAction::from_str("register"), Some(RequestAction::SignUp));
    assert_eq!(RequestAction::from_str("refresh_token"), Some(RequestAction::RefreshToken));
    assert_eq!(RequestAction::from_str("verify_token"), Some(RequestAction::VerifyToken));
    assert_eq!(RequestAction::from_str("reset_password"), Some(RequestAction::ResetPassword));
    assert_eq!(RequestAction::from_str("unknown"), None);
    assert_eq!(RequestAction::from_str(""), None);
}

#[test]
fn action_round_trips_through_its_name() {
    let actions = [
        RequestAction::Login,
        RequestAction::Logout,
        RequestAction::SignUp,
        RequestAction::RefreshToken,
        RequestAction::VerifyToken,
        RequestAction::ResetPassword,
    ];
    for a in actions {
        assert_eq!(RequestAction::from_str(a.as_str()), Some(a));
    }
}

#[test]
fn response_new_sets_fields() {
    let r = Response::new(true, String::from("ok"), Some(String::from("t")));
    assert!(r.success);
    assert_eq!(r.message, "ok");
    assert_eq!(r.token.as_deref(), Some("t"));
}

#[test]
fn error_messages_do_not_leak() {
    assert_eq!(error_message(&Error::InvalidCredentials), "Invalid credentials");
    assert_eq!(error_message(&Error::UserNotFound), "User not found");
    assert_eq!(error_message(&Error::DuplicateEmail), "Duplicate email");
    assert_eq!(error_message(&Error::TokenExpired), "Token expired");
    assert_eq!(error_message(&Error::TokenInvalid), "Token invalid");
    assert_eq!(error_message(&Error::StoreUnavailable), "Storage unavailable");
    assert_eq!(error_message(&Error::SigningUnavailable), "Signing unavailable");
    assert_eq!(error_message(&Error::Other), "Other error");
}

#[test]
fn handle_full_lifecycle() {
    let mut a = make_auth();
    let r = handle_request(
        &mut a,
        AuthRequest::SignUp(RegisterRequest {
            email: String::from("a@example.com"),
            password: String::from("pw1"),
        }),
        0,
    );
    assert!(r.success);
    assert_eq!(r.message, "Registered successfully");
    assert!(r.token.is_none());

    let r = handle_request(
        &mut a,
        AuthRequest::Login(LoginRequest {
            email: String::from("a@example.com"),
            password: String::from("pw1"),
        }),
        100,
    );
    assert!(r.success);
    assert_eq!(r.message, "Logged in successfully");
    let token = r.token.unwrap();

    let r = handle_request(
        &mut a,
        AuthRequest::VerifyToken(VerifyTokenRequest { token: token.clone() }),
        101,
    );
    assert!(r.success);
    assert_eq!(r.message, "Token is valid");

    let r = handle_request(&mut a, AuthRequest::Logout(LogoutRequest { token: token.clone() }), 102);
    assert!(r.success);
    assert_eq!(r.message, "Logged out successfully");

    let r = handle_request(
        &mut a,
        AuthRequest::VerifyToken(VerifyTokenRequest { token: token.clone() }),
        103,
    );
    assert!(r.success);
    assert_eq!(r.message, "Token is invalid");
}

#[test]
fn handle_login_failure_has_no_token() {
    let mut a = make_auth();
    let r = handle_request(
        &mut a,
        AuthRequest::Login(LoginRequest {
            email: String::from("nobody@example.com"),
            password: String::from("pw"),
        }),
        0,
    );
    assert!(!r.success);
    assert_eq!(r.message, "Invalid credentials");
    assert!(r.token.is_none());
}

#[test]
fn handle_reset_password() {
    let mut a = make_auth();
    let r = handle_request(
        &mut a,
        AuthRequest::ResetPassword(ResetPasswordRequest {
            email: String::from("nobody@example.com"),
            new_password: String::from("pw"),
        }),
        0,
    );
    assert!(!r.success);
    assert_eq!(r.message, "User not found");
}

#[test]
fn handle_refresh_of_expired_token() {
    let mut a = make_auth();
    handle_request(
        &mut a,
        AuthRequest::SignUp(RegisterRequest {
            email: String::from("a@example.com"),
            password: String::from("pw1"),
        }),
        0,
    );
    let r = handle_request(
        &mut a,
        AuthRequest::Login(LoginRequest {
            email: String::from("a@example.com"),
            password: String::from("pw1"),
        }),
        0,
    );
    let token = r.token.unwrap();
    let r = handle_request(&mut a, AuthRequest::RefreshToken(RefreshTokenRequest { token }), 3600);
    assert!(!r.success);
    assert_eq!(r.message, "Token expired");
    assert!(r.token.is_none());
}

#[test]
fn handle_invalid_action() {
    let mut a = make_auth();
    let r = handle_request(&mut a, AuthRequest::Invalid, 0);
    assert!(!r.success);
    assert_eq!(r.message, "Invalid action");
    assert!(r.token.is_none());
}

#[test]
fn collect_keys_keeps_present_in_order() {
    let keys = vec![
        Some(String::from("a")),
        None,
        Some(String::from("b")),
        None,
        Some(String::from("c")),
    ];
    assert_eq!(collect_keys(keys), vec!["a", "b", "c"]);
    assert_eq!(collect_keys(Vec::new()), Vec::<String>::new());
    assert_eq!(collect_keys(vec![None, None]), Vec::<String>::new());
}

#[test]
fn str_eq_matches_equality() {
    assert!(str_eq("", ""));
    assert!(str_eq("abc", "abc"));
    assert!(!str_eq("abc", "abd"));
    assert!(!str_eq("abc", "abcd"));
}
