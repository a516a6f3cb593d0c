//! Error taxonomy of the authorization core.

use vstd::prelude::*;

verus! {

/// Why a mutation or a maintenance operation was refused.
///
/// Authorization decisions never return these: an expired key, an undersized
/// signature set and a failed verification all yield `false` (soft fail), so
/// clients can retry cheaply after registering or rotating.
#[derive(Clone, Copy, Debug, PartialEq, Eq, Structural)]
pub enum AuthError {
    /// The caller of a self-service mutation is not the target account.
    Unauthorized,
    /// The account, or the named key of the account, does not exist.
    KeyNotFound,
    /// The account already holds a record for the presented key.
    KeyAlreadyExists,
    /// A multi-signature threshold above the accepted maximum.
    InvalidThreshold,
    /// A required signature blob was not supplied.
    MissingSignature,
    /// Structurally malformed signature or key material (wrong byte length).
    InvalidSignature,
    /// A reap was attempted inside the inactivity window.
    AccountStillActive,
}

} // verus!
