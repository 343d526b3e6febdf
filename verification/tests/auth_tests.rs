use auth::auth::{hash_password, credential_matches, StorageAuthenticator};
use auth::error::Error;
use auth::store::{first_user_or_not_found, AuthStorage, MemoryAuthStorage, UserRecord};

const TTL: u64 = 24 * 3600;

fn make_auth() -> StorageAuthenticator<MemoryAuthStorage> {
    StorageAuthenticator::new(MemoryAuthStorage::new(), b"server-secret".to_vec(), TTL, true)
}

#[test]
fn password_hashing_is_one_way_checkable() {
    let h = hash_password("a@example.com", "hunter2");
    assert_ne!(h, "hunter2");
    assert!(credential_matches(&h, "a@example.com", "hunter2"));
    assert!(!credential_matches(&h, "a@example.com", "hunter3"));
    // the salt (the email) matters
    assert!(!credential_matches(&h, "b@example.com", "hunter2"));
}

#[test]
fn register_then_login_token_verifies() {
    let mut a = make_auth();
    a.register("a@example.com", "pw1").unwrap();
    let token = a.login("a@example.com", "pw1", 1000).unwrap();
    assert_eq!(a.verify_token(&token, 1000), Ok(true));
    assert_eq!(a.verify_token(&token, 1000 + TTL - 1), Ok(true));
    assert_eq!(a.verify_token(&token, 1000 + TTL), Ok(false));
}

#[test]
fn login_wrong_password_is_invalid_credentials() {
    let mut a = make_auth();
    a.register("a@example.com", "pw1").unwrap();
    assert_eq!(a.login("a@example.com", "wrong", 1000), Err(Error::InvalidCredentials));
}

#[test]
fn login_unknown_email_is_invalid_credentials() {
    let a = make_auth();
    // enumeration resistance: not UserNotFound
    assert_eq!(a.login("nobody@example.com", "pw", 1000), Err(Error::InvalidCredentials));
}

#[test]
fn register_duplicate_email_fails_once() {
    let mut a = make_auth();
    assert_eq!(a.register("a@example.com", "pw1"), Ok(()));
    assert_eq!(a.register("a@example.com", "pw2"), Err(Error::DuplicateEmail));
    // the first registration still stands
    assert!(a.login("a@example.com", "pw1", 0).is_ok());
    assert_eq!(a.login("a@example.com", "pw2", 0), Err(Error::InvalidCredentials));
}

#[test]
fn register_rejects_empty_inputs() {
    let mut a = make_auth();
    assert_eq!(a.register("", "pw"), Err(Error::InvalidCredentials));
    assert_eq!(a.register("a@example.com", ""), Err(Error::InvalidCredentials));
}

#[test]
fn logout_invalidates_token_and_is_idempotent() {
    let mut a = make_auth();
    a.register("a@example.com", "pw1").unwrap();
    let token = a.login("a@example.com", "pw1", 1000).unwrap();
    assert_eq!(a.verify_token(&token, 1001), Ok(true));
    assert_eq!(a.logout(&token, 1001), Ok(()));
    assert_eq!(a.verify_token(&token, 1002), Ok(false));
    // a second logout of the same token is a no-op success
    assert_eq!(a.logout(&token, 1003), Ok(()));
    // an expired token logs out as a no-op success too
    assert_eq!(a.logout(&token, 1000 + TTL), Ok(()));
}

#[test]
fn logout_malformed_token_is_invalid() {
    let mut a = make_auth();
    assert_eq!(a.logout("garbage", 0), Err(Error::TokenInvalid));
}

#[test]
fn verify_corrupted_token_is_false_not_error() {
    let a = make_auth();
    assert_eq!(a.verify_token("###not-a-token###", 0), Ok(false));
    assert_eq!(a.verify_token("", 0), Ok(false));
}

#[test]
fn reset_password_switches_which_login_succeeds() {
    let mut a = make_auth();
    a.register("a@example.com", "old-pw").unwrap();
    assert_eq!(a.reset_password("a@example.com", "new-pw"), Ok(()));
    assert_eq!(a.login("a@example.com", "old-pw", 0), Err(Error::InvalidCredentials));
    assert!(a.login("a@example.com", "new-pw", 0).is_ok());
}

#[test]
fn reset_password_unknown_email_is_user_not_found() {
    let mut a = make_auth();
    assert_eq!(a.reset_password("nobody@example.com", "pw"), Err(Error::UserNotFound));
}

#[test]
fn refresh_issues_new_token_and_revokes_old() {
    let mut a = make_auth();
    a.register("a@example.com", "pw1").unwrap();
    let token = a.login("a@example.com", "pw1", 1000).unwrap();
    let fresh = a.refresh_token(&token, 2000).unwrap();
    assert_ne!(fresh, token);
    assert_eq!(a.verify_token(&fresh, 2001), Ok(true));
    // chain bounding: the consumed token is revoked
    assert_eq!(a.verify_token(&token, 2001), Ok(false));
    assert_eq!(a.refresh_token(&token, 2002), Err(Error::TokenInvalid));
}

#[test]
fn refresh_without_revocation_policy_keeps_old_token() {
    let mut a = StorageAuthenticator::new(
        MemoryAuthStorage::new(),
        b"server-secret".to_vec(),
        TTL,
        false,
    );
    a.register("a@example.com", "pw1").unwrap();
    let token = a.login("a@example.com", "pw1", 1000).unwrap();
    let fresh = a.refresh_token(&token, 2000).unwrap();
    assert_eq!(a.verify_token(&token, 2001), Ok(true));
    assert_eq!(a.verify_token(&fresh, 2001), Ok(true));
}

#[test]
fn refresh_expired_token_fails_expired() {
    let mut a = make_auth();
    a.register("a@example.com", "pw1").unwrap();
    let token = a.login("a@example.com", "pw1", 1000).unwrap();
    assert_eq!(a.refresh_token(&token, 1000 + TTL), Err(Error::TokenExpired));
}

#[test]
fn zero_ttl_token_is_invalid_at_once() {
    let mut a = StorageAuthenticator::new(
        MemoryAuthStorage::new(),
        b"server-secret".to_vec(),
        0,
        true,
    );
    a.register("a@example.com", "pw1").unwrap();
    let token = a.login("a@example.com", "pw1", 1000).unwrap();
    assert_eq!(a.verify_token(&token, 1000), Ok(false));
}

#[test]
fn prune_keeps_live_revocations() {
    let mut a = make_auth();
    a.register("a@example.com", "pw1").unwrap();
    let token = a.login("a@example.com", "pw1", 1000).unwrap();
    a.logout(&token, 1001).unwrap();
    // pruning before the token's expiry keeps its revocation record
    a.prune_revocations(1002);
    assert_eq!(a.verify_token(&token, 1003), Ok(false));
    // pruning past the expiry drops the record; the token is expired anyway
    a.prune_revocations(1000 + TTL);
    assert_eq!(a.verify_token(&token, 1000 + TTL + 1), Ok(false));
}

#[test]
fn first_row_or_not_found() {
    assert!(matches!(first_user_or_not_found(Vec::new()), Err(Error::UserNotFound)));
    let rows = vec![
        UserRecord { id: 4, email: String::from("a@example.com"), credential: String::from("c1") },
        UserRecord { id: 5, email: String::from("b@example.com"), credential: String::from("c2") },
    ];
    let u = first_user_or_not_found(rows).unwrap();
    assert_eq!(u.id, 4);
    assert_eq!(u.email, "a@example.com");
    assert_eq!(u.credential, "c1");
}

#[test]
fn store_lookup_and_update() {
    let mut s = MemoryAuthStorage::new();
    assert!(matches!(s.get_user_by_email("x@example.com"), Err(Error::UserNotFound)));
    s.create_user("x@example.com", "cred-1").unwrap();
    assert_eq!(s.create_user("x@example.com", "cred-2"), Err(Error::DuplicateEmail));
    let u = s.get_user_by_email("x@example.com").unwrap();
    assert_eq!(u.email, "x@example.com");
    assert_eq!(u.credential, "cred-1");
    s.set_user_password("x@example.com", "cred-3").unwrap();
    let u2 = s.get_user_by_email("x@example.com").unwrap();
    assert_eq!(u2.credential, "cred-3");
    assert_eq!(u2.id, u.id);
    assert_eq!(s.set_user_password("y@example.com", "c"), Err(Error::UserNotFound));
}
