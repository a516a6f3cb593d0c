//! Domain events recorded by mutations.
//!
//! Every mutation appends the events it emits to the store's append-only log,
//! strictly after the corresponding state change; the embedding environment
//! drains the log and hands the events to its transport.

use vstd::prelude::*;

verus! {

/// One domain event, in emission order.
#[derive(Debug, PartialEq, Eq)]
pub enum AuthEvent {
    /// A key record was inserted for the account.
    KeyRegistered { account_id: Vec<u8>, public_key: Vec<u8> },
    /// A key record was removed from the account.
    KeyRemoved { account_id: Vec<u8>, public_key: Vec<u8> },
    /// `old_public_key` was atomically replaced by `new_public_key`.
    KeyRotated { account_id: Vec<u8>, old_public_key: Vec<u8>, new_public_key: Vec<u8> },
    /// The record's expiration was reset to `new_expiration`.
    KeyExpirationExtended { account_id: Vec<u8>, public_key: Vec<u8>, new_expiration: u64 },
}

/// Mathematical image of an [`AuthEvent`].
#[verifier::ext_equal]
pub enum EventRecord {
    KeyRegistered { account_id: Seq<u8>, public_key: Seq<u8> },
    KeyRemoved { account_id: Seq<u8>, public_key: Seq<u8> },
    KeyRotated { account_id: Seq<u8>, old_public_key: Seq<u8>, new_public_key: Seq<u8> },
    KeyExpirationExtended { account_id: Seq<u8>, public_key: Seq<u8>, new_expiration: u64 },
}

impl View for AuthEvent {
    type V = EventRecord;

    open spec fn view(&self) -> EventRecord {
        match self {
            AuthEvent::KeyRegistered { account_id, public_key } => EventRecord::KeyRegistered {
                account_id: account_id@,
                public_key: public_key@,
            },
            AuthEvent::KeyRemoved { account_id, public_key } => EventRecord::KeyRemoved {
                account_id: account_id@,
                public_key: public_key@,
            },
            AuthEvent::KeyRotated { account_id, old_public_key, new_public_key } => EventRecord::KeyRotated {
                account_id: account_id@,
                old_public_key: old_public_key@,
                new_public_key: new_public_key@,
            },
            AuthEvent::KeyExpirationExtended { account_id, public_key, new_expiration } => EventRecord::KeyExpirationExtended {
                account_id: account_id@,
                public_key: public_key@,
                new_expiration: *new_expiration,
            },
        }
    }
}

} // verus!
