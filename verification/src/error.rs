use vstd::prelude::*;

verus! {

/// The failure kinds that the authentication core can report.
///
/// `StoreUnavailable` and `SigningUnavailable` are the retryable kinds; the
/// rest describe a definite outcome of the request itself.
#[derive(Clone, Copy, Debug, PartialEq, Eq, Structural)]
pub enum Error {
    InvalidCredentials,
    UserNotFound,
    DuplicateEmail,
    TokenExpired,
    TokenInvalid,
    StoreUnavailable,
    SigningUnavailable,
    Other,
}

} // verus!
