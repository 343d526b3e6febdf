//! The authenticator: orchestrates login, logout, registration, refresh,
//! verification and password reset over a credential store, the token codec
//! and the revocation cache.

use vstd::prelude::*;
use vstd::string::*;
use crate::codec::{
    Claims, TokenCodec, exp_at, hmac_b64_of, spec_parse, token_seq, well_signed,
};
use crate::error::Error;
use crate::revocation::{RevocationCache, RevocationRecord};
use crate::store::AuthStorage;

verus! {

/// The stored credential for `password` under the per-user salt (the email):
/// the base64url HMAC-SHA256 tag of the password keyed by the email's bytes.
pub open spec fn credential_of(email: Seq<char>, password: Seq<char>) -> Seq<char> {
    hmac_b64_of(password, vstd::utf8::encode_utf8(email))
}

/// Login is owed exactly to a registered email whose stored credential is the
/// hash of the supplied password.
pub open spec fn login_allowed(
    users: Map<Seq<char>, (u64, Seq<char>)>,
    email: Seq<char>,
    password: Seq<char>,
) -> bool {
    users.dom().contains(email) && users[email].1 == credential_of(email, password)
}

/// A token is valid at `now` iff it is well signed, not yet expired, and its
/// identity (subject, issued_at) has not been revoked.
pub open spec fn spec_token_valid(
    s: Seq<char>,
    key: Seq<u8>,
    revoked: Set<(u64, u64)>,
    now: u64,
) -> bool {
    match spec_parse(s) {
        Some(p) => well_signed(s, key) && (now as nat) < p.2 && !revoked.contains(
            ((p.0 as u64), (p.1 as u64)),
        ),
        None => false,
    }
}

/// Hashes a password with the salted one-way function; the salt is the email.
pub fn hash_password(email: &str, password: &str) -> (r: String)
    ensures
        r@ == credential_of(email@, password@),
{
    crate::codec::hmac_sign(password, email.as_bytes())
}

/// Checks a password against a stored credential in constant time.
pub fn credential_matches(stored: &str, email: &str, password: &str) -> (r: bool)
    ensures
        r == (stored@ == credential_of(email@, password@)),
{
    crate::codec::hmac_verify(stored, password, email.as_bytes())
}

/// The authenticator over a credential store `S`.
pub struct StorageAuthenticator<S: AuthStorage> {
    inner: S,
    revocations: RevocationCache,
    codec: TokenCodec,
    ttl: u64,
    revoke_on_refresh: bool,
}

impl<S: AuthStorage> StorageAuthenticator<S> {
    pub closed spec fn users(&self) -> Map<Seq<char>, (u64, Seq<char>)> {
        self.inner.users()
    }

    pub closed spec fn reliable(&self) -> bool {
        self.inner.reliable()
    }

    pub closed spec fn key(&self) -> Seq<u8> {
        self.codec@
    }

    pub closed spec fn revoked(&self) -> Set<(u64, u64)> {
        self.revocations.revoked()
    }

    pub closed spec fn revocation_records(&self) -> Seq<RevocationRecord> {
        self.revocations.records()
    }

    pub closed spec fn ttl(&self) -> u64 {
        self.ttl
    }

    pub closed spec fn revoke_on_refresh(&self) -> bool {
        self.revoke_on_refresh
    }

    /// Token validity against this authenticator's key and revocations.
    pub open spec fn token_valid(&self, s: Seq<char>, now: u64) -> bool {
        spec_token_valid(s, self.key(), self.revoked(), now)
    }

    /// The signing secret and token lifetime are injected here; whether a
    /// refresh revokes the token it consumes is a policy choice.
    pub fn new(inner: S, key: Vec<u8>, ttl: u64, revoke_on_refresh: bool) -> (r: Self)
        ensures
            r.users() == inner.users(),
            r.reliable() == inner.reliable(),
            r.key() == key@,
            r.revoked() == Set::<(u64, u64)>::empty(),
            r.ttl() == ttl,
            r.revoke_on_refresh() == revoke_on_refresh,
    {
        StorageAuthenticator {
            inner,
            revocations: RevocationCache::new(),
            codec: TokenCodec::new(key),
            ttl,
            revoke_on_refresh,
        }
    }

    /// Login: `Ok` with a fresh token exactly when the email is registered and
    /// the password matches; a missing user is reported as
    /// `InvalidCredentials`, never `UserNotFound`. No state changes.
    pub fn login(&self, email: &str, password: &str, now: u64) -> (r: Result<String, Error>)
        ensures
            (match r {
                Ok(t) => login_allowed(self.users(), email@, password@) && t@ == token_seq(
                    self.users()[email@].0 as nat,
                    now as nat,
                    exp_at(now as nat, self.ttl() as nat),
                    self.key(),
                ),
                Err(e) => {
                    &&& e == Error::InvalidCredentials || e == Error::StoreUnavailable
                    &&& e == Error::InvalidCredentials ==> !login_allowed(
                        self.users(),
                        email@,
                        password@,
                    )
                },
            }),
            self.reliable() ==> (r is Ok <==> login_allowed(self.users(), email@, password@)),
            self.reliable() ==> (r matches Err(e) ==> e == Error::InvalidCredentials),
    {
        match self.inner.get_user_by_email(email) {
            Ok(u) => {
                if credential_matches(u.credential.as_str(), email, password) {
                    Ok(self.codec.mint(u.id, now, self.ttl))
                } else {
                    Err(Error::InvalidCredentials)
                }
            },
            Err(e) => {
                if e == Error::UserNotFound {
                    Err(Error::InvalidCredentials)
                } else {
                    Err(e)
                }
            },
        }
    }

    /// Pure verification: true iff the token is well signed, unexpired and not
    /// revoked; a merely-invalid token is `Ok(false)`, never an error.
    pub fn verify_token(&self, token: &str, now: u64) -> (r: Result<bool, Error>)
        ensures
            r == Ok::<bool, Error>(self.token_valid(token@, now)),
    {
        match self.codec.decode(token, now) {
            Ok(c) => Ok(!self.revocations.is_revoked(c.sub, c.iat)),
            Err(_) => Ok(false),
        }
    }

    /// Logout: revokes a live token, recording its own expiry so the cache can
    /// self-prune once the token would have died anyway; an expired or
    /// already-revoked (but well-signed) token is a no-op success, a malformed
    /// or badly signed token is `TokenInvalid`. The store is untouched.
    pub fn logout(&mut self, token: &str, now: u64) -> (r: Result<(), Error>)
        ensures
            final(self).users() == old(self).users(),
            final(self).reliable() == old(self).reliable(),
            final(self).key() == old(self).key(),
            final(self).ttl() == old(self).ttl(),
            final(self).revoke_on_refresh() == old(self).revoke_on_refresh(),
            r is Ok <==> well_signed(token@, old(self).key()),
            r is Err ==> r == Err::<(), Error>(Error::TokenInvalid) && final(self).revoked() == old(
                self,
            ).revoked() && final(self).revocation_records() == old(self).revocation_records(),
            (match spec_parse(token@) {
                Some(p) => r is Ok ==> final(self).revoked() == (if (now as nat) < p.2 {
                    old(self).revoked().insert(((p.0 as u64), (p.1 as u64)))
                } else {
                    old(self).revoked()
                }),
                None => r is Err,
            }),
            (match spec_parse(token@) {
                Some(p) => r is Ok ==> final(self).revocation_records() == (if (now as nat) < p.2 {
                    old(self).revocation_records().push(
                        (RevocationRecord {
                            subject: p.0 as u64,
                            issued_at: p.1 as u64,
                            expires_at: p.2 as u64,
                        }),
                    )
                } else {
                    old(self).revocation_records()
                }),
                None => true,
            }),
    {
        match self.codec.decode(token, now) {
            Ok(c) => {
                self.revocations.revoke(c.sub, c.iat, c.exp);
                Ok(())
            },
            Err(e) => {
                if e == Error::TokenExpired {
                    Ok(())
                } else {
                    Err(Error::TokenInvalid)
                }
            },
        }
    }

    /// Registration: rejects empty email or password as `InvalidCredentials`,
    /// hashes the password, and creates the user; a taken email is a distinct
    /// `DuplicateEmail` failure.
    pub fn register(&mut self, email: &str, password: &str) -> (r: Result<(), Error>)
        ensures
            final(self).reliable() == old(self).reliable(),
            final(self).key() == old(self).key(),
            final(self).ttl() == old(self).ttl(),
            final(self).revoked() == old(self).revoked(),
            final(self).revoke_on_refresh() == old(self).revoke_on_refresh(),
            (match r {
                Ok(()) => {
                    &&& email@.len() > 0 && password@.len() > 0
                    &&& !old(self).users().dom().contains(email@)
                    &&& exists|id: u64|
                        final(self).users() == #[trigger] old(self).users().insert(
                            email@,
                            (id, credential_of(email@, password@)),
                        ) && (forall|e: Seq<char>|
                            #[trigger] old(self).users().dom().contains(e) ==> old(
                                self,
                            ).users()[e].0 != id)
                },
                Err(e) => {
                    &&& final(self).users() == old(self).users()
                    &&& e == Error::InvalidCredentials || e == Error::DuplicateEmail || e
                        == Error::StoreUnavailable
                    &&& (e == Error::InvalidCredentials <==> (email@.len() == 0 || password@.len()
                        == 0))
                    &&& e == Error::DuplicateEmail ==> old(self).users().dom().contains(email@)
                },
            }),
            old(self).reliable() ==> (r is Ok <==> (email@.len() > 0 && password@.len() > 0 && !old(
                self,
            ).users().dom().contains(email@))),
            old(self).reliable() ==> (r matches Err(e) ==> e != Error::StoreUnavailable),
    {
        if email.is_empty() || password.is_empty() {
            return Err(Error::InvalidCredentials);
        }
        let hash = hash_password(email, password);
        match self.inner.create_user(email, hash.as_str()) {
            Ok(()) => Ok(()),
            Err(e) => Err(e),
        }
    }

    /// Refresh: consumes a valid (unexpired, unrevoked) token and mints a new
    /// one for the same subject with a fresh lifetime; under the chain-bounding
    /// policy the old token is revoked. A revoked or badly signed token fails
    /// `TokenInvalid`, an expired one `TokenExpired`.
    pub fn refresh_token(&mut self, token: &str, now: u64) -> (r: Result<String, Error>)
        ensures
            final(self).users() == old(self).users(),
            final(self).reliable() == old(self).reliable(),
            final(self).key() == old(self).key(),
            final(self).ttl() == old(self).ttl(),
            final(self).revoke_on_refresh() == old(self).revoke_on_refresh(),
            r is Ok <==> old(self).token_valid(token@, now),
            (match r {
                Ok(t) => (match spec_parse(token@) {
                    Some(p) => {
                        &&& t@ == token_seq(
                            p.0,
                            now as nat,
                            exp_at(now as nat, old(self).ttl() as nat),
                            old(self).key(),
                        )
                        &&& final(self).revoked() == (if old(self).revoke_on_refresh() {
                            old(self).revoked().insert(((p.0 as u64), (p.1 as u64)))
                        } else {
                            old(self).revoked()
                        })
                    },
                    None => false,
                }),
                Err(e) => {
                    &&& final(self).revoked() == old(self).revoked()
                    &&& e == Error::TokenInvalid || e == Error::TokenExpired
                    &&& (e == Error::TokenExpired <==> (well_signed(token@, old(self).key())
                        && (match spec_parse(token@) {
                        Some(p) => (now as nat) >= p.2,
                        None => false,
                    })))
                },
            }),
    {
        match self.codec.decode(token, now) {
            Ok(c) => {
                if self.revocations.is_revoked(c.sub, c.iat) {
                    Err(Error::TokenInvalid)
                } else {
                    if self.revoke_on_refresh {
                        self.revocations.revoke(c.sub, c.iat, c.exp);
                    }
                    Ok(self.codec.mint(c.sub, now, self.ttl))
                }
            },
            Err(e) => {
                if e == Error::TokenExpired {
                    Err(Error::TokenExpired)
                } else {
                    Err(Error::TokenInvalid)
                }
            },
        }
    }

    /// Password reset: hashes the new password and updates the stored
    /// credential; a missing user is reported distinctly as `UserNotFound`.
    /// Tokens and revocations are untouched.
    pub fn reset_password(&mut self, email: &str, new_password: &str) -> (r: Result<(), Error>)
        ensures
            final(self).reliable() == old(self).reliable(),
            final(self).key() == old(self).key(),
            final(self).ttl() == old(self).ttl(),
            final(self).revoked() == old(self).revoked(),
            final(self).revoke_on_refresh() == old(self).revoke_on_refresh(),
            (match r {
                Ok(()) => {
                    &&& old(self).users().dom().contains(email@)
                    &&& final(self).users() == old(self).users().insert(
                        email@,
                        (old(self).users()[email@].0, credential_of(email@, new_password@)),
                    )
                },
                Err(e) => {
                    &&& final(self).users() == old(self).users()
                    &&& e == Error::UserNotFound || e == Error::StoreUnavailable
                    &&& e == Error::UserNotFound ==> !old(self).users().dom().contains(email@)
                },
            }),
            old(self).reliable() ==> (r is Ok <==> old(self).users().dom().contains(email@)),
            old(self).reliable() ==> (r matches Err(e) ==> e == Error::UserNotFound),
    {
        let hash = hash_password(email, new_password);
        self.inner.set_user_password(email, hash.as_str())
    }

    /// Drops the revocation records of tokens already expired at `now`: they
    /// are invalid with or without a record. Pruning never revokes anything.
    pub fn prune_revocations(&mut self, now: u64)
        ensures
            final(self).users() == old(self).users(),
            final(self).reliable() == old(self).reliable(),
            final(self).key() == old(self).key(),
            final(self).ttl() == old(self).ttl(),
            final(self).revoke_on_refresh() == old(self).revoke_on_refresh(),
            final(self).revocation_records() == old(self).revocation_records().filter(
                |r: RevocationRecord| r.expires_at > now,
            ),
            forall|p: (u64, u64)|
                final(self).revoked().contains(p) ==> old(self).revoked().contains(p),
    {
        self.revocations.prune(now);
    }
}

/// A token minted at `now` for subject `sub` verifies immediately, provided it
/// has any lifetime left and its identity is not already revoked.
pub proof fn lemma_fresh_token_valid(
    sub: u64,
    now: u64,
    ttl: u64,
    key: Seq<u8>,
    revoked: Set<(u64, u64)>,
)
    requires
        (now as nat) < exp_at(now as nat, ttl as nat),
        !revoked.contains((sub, now)),
    ensures
        spec_token_valid(
            token_seq(sub as nat, now as nat, exp_at(now as nat, ttl as nat), key),
            key,
            revoked,
            now,
        ),
{
    crate::codec::lemma_token_roundtrip(sub as nat, now as nat, exp_at(now as nat, ttl as nat), key);
}

/// Round trip: the claims of a minted token parse back unchanged, and the
/// minted token is well signed; in particular the subject is preserved and
/// `issued_at <= expires_at` holds by construction of `exp_at`.
pub proof fn lemma_mint_claims_roundtrip(sub: u64, now: u64, ttl: u64, key: Seq<u8>)
    ensures
        (match spec_parse(token_seq(sub as nat, now as nat, exp_at(now as nat, ttl as nat), key)) {
            Some(p) => p.0 == sub as nat && p.1 == now as nat && p.2 == exp_at(
                now as nat,
                ttl as nat,
            ) && p.1 <= p.2,
            None => false,
        }),
        well_signed(token_seq(sub as nat, now as nat, exp_at(now as nat, ttl as nat), key), key),
{
    crate::codec::lemma_token_roundtrip(sub as nat, now as nat, exp_at(now as nat, ttl as nat), key);
}

/// A token minted with zero time-to-live is already expired when minted.
pub proof fn lemma_zero_ttl_expired(sub: u64, now: u64, key: Seq<u8>, revoked: Set<(u64, u64)>)
    ensures
        !spec_token_valid(
            token_seq(sub as nat, now as nat, exp_at(now as nat, 0), key),
            key,
            revoked,
            now,
        ),
{
    crate::codec::lemma_token_roundtrip(sub as nat, now as nat, exp_at(now as nat, 0), key);
}

/// Once a token's identity is revoked, verification of that token fails, at
/// every later time as well.
pub proof fn lemma_revoked_token_invalid(
    s: Seq<char>,
    key: Seq<u8>,
    revoked: Set<(u64, u64)>,
    now: u64,
)
    requires
        (match spec_parse(s) {
            Some(p) => revoked.contains(((p.0 as u64), (p.1 as u64))),
            None => true,
        }),
    ensures
        !spec_token_valid(s, key, revoked, now),
{
}

/// An unregistered email is never allowed to log in, with any password: login
/// failure does not reveal whether the email or the password was wrong.
pub proof fn lemma_unregistered_never_allowed(
    users: Map<Seq<char>, (u64, Seq<char>)>,
    email: Seq<char>,
    password: Seq<char>,
)
    requires
        !users.dom().contains(email),
    ensures
        !login_allowed(users, email, password),
{
}

/// After a password reset, the new password logs in; the old one no longer
/// does, as long as its hash differs from the new one's.
pub proof fn lemma_reset_password_login(
    users: Map<Seq<char>, (u64, Seq<char>)>,
    email: Seq<char>,
    id: u64,
    old_password: Seq<char>,
    new_password: Seq<char>,
)
    ensures
        login_allowed(
            users.insert(email, (id, credential_of(email, new_password))),
            email,
            new_password,
        ),
        credential_of(email, old_password) != credential_of(email, new_password)
            ==> !login_allowed(
            users.insert(email, (id, credential_of(email, new_password))),
            email,
            old_password,
        ),
{
}

} // verus!
