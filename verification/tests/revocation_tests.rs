use auth::revocation::RevocationCache;

#[test]
fn revoke_then_lookup() {
    let mut c = RevocationCache::new();
    assert!(!c.is_revoked(1, 100));
    c.revoke(1, 100, 500);
    assert!(c.is_revoked(1, 100));
    assert!(!c.is_revoked(1, 101));
    assert!(!c.is_revoked(2, 100));
}

#[test]
fn revoke_is_idempotent_for_lookup() {
    let mut c = RevocationCache::new();
    c.revoke(1, 100, 500);
    c.revoke(1, 100, 500);
    assert!(c.is_revoked(1, 100));
}

#[test]
fn prune_drops_only_expired_records() {
    let mut c = RevocationCache::new();
    c.revoke(1, 100, 500);
    c.revoke(2, 200, 900);
    c.prune(500);
    // the first token expired at 500, so its record is gone; the token itself
    // is invalid past its expiry anyway
    assert!(!c.is_revoked(1, 100));
    assert!(c.is_revoked(2, 200));
    c.prune(900);
    assert!(!c.is_revoked(2, 200));
}
