//! Authorization core for account-scoped cryptographic keys.
//!
//! The library maintains, per account, a set of authorized public keys, each
//! with an optional expiration and an optional multi-signature policy, and
//! decides whether a presented key (plus zero or more signature blobs)
//! authorizes a given payload. The persistent storage substrate, the clock,
//! the caller-identity primitive and the event transport are collaborators of
//! the embedding environment: operations take the caller and the current
//! millisecond timestamp as plain arguments, and record the domain events they
//! emit in an append-only log that the embedder drains.

use vstd::prelude::*;

pub mod crypto;
pub mod errors;
pub mod events;
pub mod laws;
pub mod model;
pub mod state;
pub mod types;

verus! {

/// Byte length of a public key under the supported signature scheme.
pub const ED25519_PUBLIC_KEY_LEN: usize = 32;

/// Byte length of a signature blob under the supported signature scheme.
pub const ED25519_SIGNATURE_LEN: usize = 64;

/// Number of milliseconds in one day.
pub const MS_PER_DAY: u64 = 86_400_000;

/// Length of the inactivity window, in milliseconds: one year. An account
/// whose last activity lies more than this far in the past may be reaped.
pub const INACTIVITY_WINDOW_MS: u64 = 31_536_000_000;

/// Largest multi-signature threshold accepted at registration.
pub const MAX_MULTI_SIG_THRESHOLD: u32 = 10;

/// Largest page size accepted by the paginated read operations.
pub const MAX_PAGE_LIMIT: u32 = 100;

} // verus!
