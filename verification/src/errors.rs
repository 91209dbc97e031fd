//! Error taxonomy of the authentication core.

use vstd::prelude::*;

verus! {

/// Every failure the authentication core can report to its callers.
///
/// `InvalidCredentials` deliberately covers both "unknown email" and "wrong
/// password": login must fail identically in the two cases so that callers
/// cannot enumerate accounts.  `InvalidToken` likewise covers a bad
/// signature, a malformed token and an expired token without distinction.
#[derive(Clone, Copy, Debug, PartialEq, Eq, Structural)]
pub enum AuthError {
    /// Signup was asked to register an email that an existing record holds.
    DuplicateEmail,
    /// Login failed: no such email, or the password does not match.
    InvalidCredentials,
    /// Token verification failed: malformed, bad signature, or expired.
    InvalidToken,
    /// The user a refresh token speaks of no longer exists.
    UserNotFound,
    /// A protected request carried no authorization header.
    MissingAuth,
    /// A protected request carried an authorization header without the
    /// exact `Bearer ` prefix.
    MalformedAuth,
    /// The credential hasher met a malformed stored hash, or could not
    /// produce one.
    HashingError,
    /// The user-record store failed.
    StorageError,
    /// A token could not be built: the email holds characters the wire
    /// format cannot carry, or the expiry would not be representable.
    TokenEncoding,
}

impl AuthError {
    /// The client-facing message for this error, one fixed string per kind,
    /// so that equal kinds always carry equal messages.
    pub fn message(&self) -> (r: &'static str)
        ensures
            r == self.message_spec(),
    {
        match self {
            AuthError::DuplicateEmail => "email already in use",
            AuthError::InvalidCredentials => "email or password is incorrect",
            AuthError::InvalidToken => "invalid or expired token",
            AuthError::UserNotFound => "user not found",
            AuthError::MissingAuth => "missing authorization header",
            AuthError::MalformedAuth => "invalid authorization format",
            AuthError::HashingError => "credential hashing failed",
            AuthError::StorageError => "storage failure",
            AuthError::TokenEncoding => "token could not be encoded",
        }
    }

    /// The message each kind carries, as a mathematical function of the kind.
    pub open spec fn message_spec(&self) -> &'static str {
        match self {
            AuthError::DuplicateEmail => "email already in use",
            AuthError::InvalidCredentials => "email or password is incorrect",
            AuthError::InvalidToken => "invalid or expired token",
            AuthError::UserNotFound => "user not found",
            AuthError::MissingAuth => "missing authorization header",
            AuthError::MalformedAuth => "invalid authorization format",
            AuthError::HashingError => "credential hashing failed",
            AuthError::StorageError => "storage failure",
            AuthError::TokenEncoding => "token could not be encoded",
        }
    }
}

/// Domain-level validation failures, raised before a flow runs.
#[derive(Debug)]
pub enum DomainError {
    /// An input field does not meet its validation rule.
    InvalidInput(String),
    /// A business rule was broken.
    BusinessRuleViolation(String),
}

} // verus!
