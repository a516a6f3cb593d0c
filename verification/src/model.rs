//! Mathematical model of the key store and of every operation on it.
//!
//! [`StoreModel`] is the view of the executable store: the registered
//! accounts in insertion order, each with its key records in insertion order
//! and its last-active instant, plus the append-only event log. Each public
//! operation of the store has a `..._post` predicate here that relates the
//! store before the call, the store after it, and the returned value; the
//! operation's `ensures` states exactly that predicate.

use vstd::prelude::*;

use crate::errors::AuthError;
use crate::events::EventRecord;
use crate::types::KeyRecord;
use crate::crypto::ed25519_accepts;

verus! {

/// Image of one registered account: its opaque handle, its key records in
/// insertion order, and the instant of its last activity.
#[verifier::ext_equal]
pub struct AccountRecord {
    pub account_id: Seq<u8>,
    pub keys: Seq<KeyRecord>,
    pub last_active: u64,
}

/// Image of the whole store.
#[verifier::ext_equal]
pub struct StoreModel {
    /// Registered accounts, in insertion order. An account exists if and only
    /// if it holds at least one key record: existence is derived state.
    pub accounts: Seq<AccountRecord>,
    /// Append-only log of the emitted domain events.
    pub events: Seq<EventRecord>,
}

// ---------------------------------------------------------------------------
// Well-formedness
// ---------------------------------------------------------------------------

/// No two registered accounts share a handle.
pub open spec fn account_ids_unique(accounts: Seq<AccountRecord>) -> bool {
    forall|i: int, j: int|
        0 <= i < j < accounts.len() ==> accounts[i].account_id != accounts[j].account_id
}

/// Within one account, `public_key` is unique across its key records.
pub open spec fn keys_unique(keys: Seq<KeyRecord>) -> bool {
    forall|i: int, j: int| 0 <= i < j < keys.len() ==> keys[i].public_key != keys[j].public_key
}

/// A stored threshold never exceeds the accepted maximum.
pub open spec fn threshold_ok(k: KeyRecord) -> bool {
    match k.multi_sig_threshold {
        Some(t) => t <= crate::MAX_MULTI_SIG_THRESHOLD,
        None => true,
    }
}

/// Invariant of a key-record collection: keys pairwise distinct, thresholds
/// within bounds.
pub open spec fn keys_wf(keys: Seq<KeyRecord>) -> bool {
    &&& keys_unique(keys)
    &&& forall|i: int| 0 <= i < keys.len() ==> threshold_ok(#[trigger] keys[i])
}

/// Invariant of one registered account: non-empty while registered, keys
/// unique, thresholds within bounds.
pub open spec fn account_wf(a: AccountRecord) -> bool {
    &&& a.keys.len() > 0
    &&& keys_wf(a.keys)
}

/// Invariant of the whole store.
pub open spec fn store_wf(s: StoreModel) -> bool {
    &&& account_ids_unique(s.accounts)
    &&& forall|i: int| 0 <= i < s.accounts.len() ==> account_wf(#[trigger] s.accounts[i])
}

// ---------------------------------------------------------------------------
// Lookup
// ---------------------------------------------------------------------------

/// Whether `account_id` is registered.
pub open spec fn has_account(s: StoreModel, account_id: Seq<u8>) -> bool {
    exists|i: int|
        0 <= i < s.accounts.len() && (#[trigger] s.accounts[i]).account_id == account_id
}

/// Position of `account_id` in the index; meaningful only when
/// `has_account` holds (unique under `store_wf`).
pub open spec fn account_index(s: StoreModel, account_id: Seq<u8>) -> int {
    choose|i: int|
        0 <= i < s.accounts.len() && (#[trigger] s.accounts[i]).account_id == account_id
}

/// The registered account named `account_id`.
pub open spec fn account_of(s: StoreModel, account_id: Seq<u8>) -> AccountRecord {
    s.accounts[account_index(s, account_id)]
}

/// Whether some record in `keys` carries `public_key`.
pub open spec fn has_key_in(keys: Seq<KeyRecord>, public_key: Seq<u8>) -> bool {
    exists|i: int| 0 <= i < keys.len() && (#[trigger] keys[i]).public_key == public_key
}

/// Position of `public_key` in `keys`; meaningful only when `has_key_in`
/// holds (unique under `keys_unique`).
pub open spec fn key_index_in(keys: Seq<KeyRecord>, public_key: Seq<u8>) -> int {
    choose|i: int| 0 <= i < keys.len() && (#[trigger] keys[i]).public_key == public_key
}

/// Whether `account_id` holds a record for `public_key`.
pub open spec fn has_key(s: StoreModel, account_id: Seq<u8>, public_key: Seq<u8>) -> bool {
    &&& has_account(s, account_id)
    &&& has_key_in(account_of(s, account_id).keys, public_key)
}

/// The record that `account_id` holds for `public_key`.
pub open spec fn key_of(s: StoreModel, account_id: Seq<u8>, public_key: Seq<u8>) -> KeyRecord {
    let keys = account_of(s, account_id).keys;
    keys[key_index_in(keys, public_key)]
}

/// The last-active instant of a registered account.
pub open spec fn last_active_of(s: StoreModel, account_id: Seq<u8>) -> u64 {
    account_of(s, account_id).last_active
}

// ---------------------------------------------------------------------------
// The authorization decision
// ---------------------------------------------------------------------------

/// Whether the record's expiration lies strictly in the past.
pub open spec fn key_expired(k: KeyRecord, now: u64) -> bool {
    match k.expiration_timestamp {
        Some(e) => now > e,
        None => false,
    }
}

/// Quorum size under the multi-signature rule; an absent threshold means 1.
pub open spec fn effective_threshold(k: KeyRecord) -> u32 {
    match k.multi_sig_threshold {
        Some(t) => t,
        None => 1u32,
    }
}

/// The signature blobs presented with an authorization request; a missing
/// list counts as none.
pub open spec fn sig_blobs(signatures: Option<Vec<Vec<u8>>>) -> Seq<Seq<u8>> {
    match signatures {
        Some(v) => v.deep_view(),
        None => Seq::empty(),
    }
}

/// Single-signature rule: exactly one blob of exactly 64 bytes, a 32-byte
/// key, and the scheme accepts the blob on the payload under the key.
pub open spec fn single_sig_decision(k: KeyRecord, sigs: Seq<Seq<u8>>, payload: Seq<u8>) -> bool {
    &&& sigs.len() == 1
    &&& sigs[0].len() == crate::ED25519_SIGNATURE_LEN
    &&& k.public_key.len() == crate::ED25519_PUBLIC_KEY_LEN
    &&& ed25519_accepts(k.public_key, sigs[0], payload)
}

/// What a found record decides: never while expired; under the
/// multi-signature rule a quorum of blobs suffices regardless of their
/// content (their validity is delegated to an upstream co-signer, a
/// documented trust boundary); otherwise the single-signature rule.
pub open spec fn key_decision(k: KeyRecord, sigs: Seq<Seq<u8>>, payload: Seq<u8>, now: u64) -> bool {
    &&& !key_expired(k, now)
    &&& if k.is_multi_sig {
            sigs.len() >= effective_threshold(k)
        } else {
            single_sig_decision(k, sigs, payload)
        }
}

/// The whole authorization decision. A missing account or record decides
/// false: never a hard error, so clients can retry after registering.
pub open spec fn authorized(
    s: StoreModel,
    account_id: Seq<u8>,
    public_key: Seq<u8>,
    sigs: Seq<Seq<u8>>,
    payload: Seq<u8>,
    now: u64,
) -> bool {
    &&& has_key(s, account_id, public_key)
    &&& key_decision(key_of(s, account_id, public_key), sigs, payload, now)
}

/// The store after a successful authorization: the account's last-active
/// instant becomes `now`; nothing else moves and no event is emitted.
pub open spec fn touch_result(s: StoreModel, account_id: Seq<u8>, now: u64) -> StoreModel {
    let i = account_index(s, account_id);
    let a = s.accounts[i];
    StoreModel {
        accounts: s.accounts.update(i, AccountRecord {
            account_id: a.account_id,
            keys: a.keys,
            last_active: now,
        }),
        events: s.events,
    }
}

// ---------------------------------------------------------------------------
// Mutations
// ---------------------------------------------------------------------------

/// Whether a requested threshold is over the accepted maximum.
pub open spec fn threshold_too_large(threshold: Option<u32>) -> bool {
    threshold matches Some(t) && t > crate::MAX_MULTI_SIG_THRESHOLD
}

/// The expiration instant computed from an optional day count.
pub open spec fn expiration_of(expiration_days: Option<u32>, now: u64) -> Option<u64> {
    match expiration_days {
        Some(d) => Some((now + d * crate::MS_PER_DAY) as u64),
        None => None,
    }
}

/// The record that a registration or rotation inserts.
pub open spec fn fresh_record(
    public_key: Seq<u8>,
    expiration_days: Option<u32>,
    is_multi_sig: bool,
    multi_sig_threshold: Option<u32>,
    now: u64,
) -> KeyRecord {
    KeyRecord {
        public_key,
        expiration_timestamp: expiration_of(expiration_days, now),
        is_multi_sig,
        multi_sig_threshold,
    }
}

/// The accounts sequence after account `i`'s keys became `keys`: the account
/// is purged the instant its record collection becomes empty, in the same
/// step.
pub open spec fn purge_or_update(
    accounts: Seq<AccountRecord>,
    i: int,
    keys: Seq<KeyRecord>,
    last_active: u64,
) -> Seq<AccountRecord> {
    if keys.len() == 0 {
        accounts.remove(i)
    } else {
        accounts.update(i, AccountRecord {
            account_id: accounts[i].account_id,
            keys,
            last_active,
        })
    }
}

/// The store after a successful registration: the record is appended to the
/// account's keys (the account is created on its first record), the account's
/// last-active instant becomes `now`, and `KeyRegistered` is logged.
pub open spec fn register_result(s: StoreModel, account_id: Seq<u8>, rec: KeyRecord, now: u64) -> StoreModel {
    let ev = EventRecord::KeyRegistered { account_id, public_key: rec.public_key };
    if has_account(s, account_id) {
        let i = account_index(s, account_id);
        let a = s.accounts[i];
        StoreModel {
            accounts: s.accounts.update(i, AccountRecord {
                account_id: a.account_id,
                keys: a.keys.push(rec),
                last_active: now,
            }),
            events: s.events.push(ev),
        }
    } else {
        StoreModel {
            accounts: s.accounts.push(AccountRecord {
                account_id,
                keys: seq![rec],
                last_active: now,
            }),
            events: s.events.push(ev),
        }
    }
}

/// Contract of `register_key`: self-service only, thresholds capped, one
/// record per key per account; otherwise the registration happens.
pub open spec fn register_post(
    pre: StoreModel,
    post: StoreModel,
    r: Result<(), AuthError>,
    caller: Seq<u8>,
    account_id: Seq<u8>,
    public_key: Seq<u8>,
    expiration_days: Option<u32>,
    is_multi_sig: bool,
    multi_sig_threshold: Option<u32>,
    now: u64,
) -> bool {
    if caller != account_id {
        r == Err::<(), AuthError>(AuthError::Unauthorized) && post == pre
    } else if threshold_too_large(multi_sig_threshold) {
        r == Err::<(), AuthError>(AuthError::InvalidThreshold) && post == pre
    } else if has_key(pre, account_id, public_key) {
        r == Err::<(), AuthError>(AuthError::KeyAlreadyExists) && post == pre
    } else {
        r == Ok::<(), AuthError>(()) && post == register_result(
            pre,
            account_id,
            fresh_record(public_key, expiration_days, is_multi_sig, multi_sig_threshold, now),
            now,
        )
    }
}

/// The store after a successful removal: the record leaves the account's
/// keys, `KeyRemoved` is logged, and an account left without records is
/// purged atomically.
pub open spec fn remove_result(s: StoreModel, account_id: Seq<u8>, public_key: Seq<u8>) -> StoreModel {
    let i = account_index(s, account_id);
    let a = s.accounts[i];
    let keys = a.keys.remove(key_index_in(a.keys, public_key));
    StoreModel {
        accounts: purge_or_update(s.accounts, i, keys, a.last_active),
        events: s.events.push(EventRecord::KeyRemoved { account_id, public_key }),
    }
}

/// Contract of `remove_key`.
pub open spec fn remove_post(
    pre: StoreModel,
    post: StoreModel,
    r: Result<(), AuthError>,
    caller: Seq<u8>,
    account_id: Seq<u8>,
    public_key: Seq<u8>,
) -> bool {
    if caller != account_id {
        r == Err::<(), AuthError>(AuthError::Unauthorized) && post == pre
    } else if !has_key(pre, account_id, public_key) {
        r == Err::<(), AuthError>(AuthError::KeyNotFound) && post == pre
    } else {
        r == Ok::<(), AuthError>(()) && post == remove_result(pre, account_id, public_key)
    }
}

/// The store after a successful rotation: the old record leaves, the new one
/// is appended, the last-active instant becomes `now`, and `KeyRotated` is
/// logged — one atomic step.
pub open spec fn rotate_result(
    s: StoreModel,
    account_id: Seq<u8>,
    old_public_key: Seq<u8>,
    new_rec: KeyRecord,
    now: u64,
) -> StoreModel {
    let i = account_index(s, account_id);
    let a = s.accounts[i];
    let keys = a.keys.remove(key_index_in(a.keys, old_public_key)).push(new_rec);
    StoreModel {
        accounts: s.accounts.update(i, AccountRecord {
            account_id: a.account_id,
            keys,
            last_active: now,
        }),
        events: s.events.push(EventRecord::KeyRotated {
            account_id,
            old_public_key,
            new_public_key: new_rec.public_key,
        }),
    }
}

/// Contract of `rotate_key`.
pub open spec fn rotate_post(
    pre: StoreModel,
    post: StoreModel,
    r: Result<(), AuthError>,
    caller: Seq<u8>,
    account_id: Seq<u8>,
    old_public_key: Seq<u8>,
    new_public_key: Seq<u8>,
    expiration_days: Option<u32>,
    is_multi_sig: bool,
    multi_sig_threshold: Option<u32>,
    now: u64,
) -> bool {
    if caller != account_id {
        r == Err::<(), AuthError>(AuthError::Unauthorized) && post == pre
    } else if threshold_too_large(multi_sig_threshold) {
        r == Err::<(), AuthError>(AuthError::InvalidThreshold) && post == pre
    } else if !has_key(pre, account_id, old_public_key) {
        r == Err::<(), AuthError>(AuthError::KeyNotFound) && post == pre
    } else if has_key(pre, account_id, new_public_key) {
        r == Err::<(), AuthError>(AuthError::KeyAlreadyExists) && post == pre
    } else {
        r == Ok::<(), AuthError>(()) && post == rotate_result(
            pre,
            account_id,
            old_public_key,
            fresh_record(new_public_key, expiration_days, is_multi_sig, multi_sig_threshold, now),
            now,
        )
    }
}

/// The store after a successful expiration extension: the record's
/// expiration is reset absolutely to `now` plus the given days, and
/// `KeyExpirationExtended` is logged. Nothing else moves.
pub open spec fn extend_result(
    s: StoreModel,
    account_id: Seq<u8>,
    public_key: Seq<u8>,
    additional_days: u32,
    now: u64,
) -> StoreModel {
    let i = account_index(s, account_id);
    let a = s.accounts[i];
    let j = key_index_in(a.keys, public_key);
    let k = a.keys[j];
    let new_expiration = (now + additional_days * crate::MS_PER_DAY) as u64;
    StoreModel {
        accounts: s.accounts.update(i, AccountRecord {
            account_id: a.account_id,
            keys: a.keys.update(j, KeyRecord {
                public_key: k.public_key,
                expiration_timestamp: Some(new_expiration),
                is_multi_sig: k.is_multi_sig,
                multi_sig_threshold: k.multi_sig_threshold,
            }),
            last_active: a.last_active,
        }),
        events: s.events.push(EventRecord::KeyExpirationExtended {
            account_id,
            public_key,
            new_expiration,
        }),
    }
}

/// Contract of `extend_key_expiration`.
pub open spec fn extend_post(
    pre: StoreModel,
    post: StoreModel,
    r: Result<(), AuthError>,
    caller: Seq<u8>,
    account_id: Seq<u8>,
    public_key: Seq<u8>,
    additional_days: u32,
    now: u64,
) -> bool {
    if caller != account_id {
        r == Err::<(), AuthError>(AuthError::Unauthorized) && post == pre
    } else if !has_key(pre, account_id, public_key) {
        r == Err::<(), AuthError>(AuthError::KeyNotFound) && post == pre
    } else {
        r == Ok::<(), AuthError>(()) && post == extend_result(pre, account_id, public_key, additional_days, now)
    }
}

/// The records of `keys` that outlive the sweep at `now`.
pub open spec fn live_keys(keys: Seq<KeyRecord>, now: u64) -> Seq<KeyRecord> {
    keys.filter(|k: KeyRecord| !key_expired(k, now))
}

/// The records of `keys` that the sweep at `now` removes, in order.
pub open spec fn dead_keys(keys: Seq<KeyRecord>, now: u64) -> Seq<KeyRecord> {
    keys.filter(|k: KeyRecord| key_expired(k, now))
}

/// One `KeyRemoved` event per removed record, in removal order.
pub open spec fn removal_events(account_id: Seq<u8>, keys: Seq<KeyRecord>) -> Seq<EventRecord> {
    keys.map_values(|k: KeyRecord| EventRecord::KeyRemoved { account_id, public_key: k.public_key })
}

/// The store after a successful expired-key sweep: every expired record
/// leaves (each logged), and an account left without records is purged.
pub open spec fn sweep_result(s: StoreModel, account_id: Seq<u8>, now: u64) -> StoreModel {
    let i = account_index(s, account_id);
    let a = s.accounts[i];
    StoreModel {
        accounts: purge_or_update(s.accounts, i, live_keys(a.keys, now), a.last_active),
        events: s.events + removal_events(account_id, dead_keys(a.keys, now)),
    }
}

/// Contract of `remove_expired_keys`.
pub open spec fn sweep_post(
    pre: StoreModel,
    post: StoreModel,
    r: Result<(), AuthError>,
    account_id: Seq<u8>,
    now: u64,
) -> bool {
    if !has_account(pre, account_id) {
        r == Err::<(), AuthError>(AuthError::KeyNotFound) && post == pre
    } else {
        r == Ok::<(), AuthError>(()) && post == sweep_result(pre, account_id, now)
    }
}

/// Whether the account's last activity lies more than the inactivity window
/// in the past.
pub open spec fn inactive(a: AccountRecord, now: u64) -> bool {
    now > a.last_active + crate::INACTIVITY_WINDOW_MS
}

/// The store after a successful reap: every record of the account leaves
/// (each logged) and the account is purged entirely.
pub open spec fn reap_result(s: StoreModel, account_id: Seq<u8>) -> StoreModel {
    let i = account_index(s, account_id);
    let a = s.accounts[i];
    StoreModel {
        accounts: s.accounts.remove(i),
        events: s.events + removal_events(account_id, a.keys),
    }
}

/// Contract of `remove_inactive_accounts`.
pub open spec fn reap_post(
    pre: StoreModel,
    post: StoreModel,
    r: Result<(), AuthError>,
    account_id: Seq<u8>,
    now: u64,
) -> bool {
    if !has_account(pre, account_id) {
        r == Err::<(), AuthError>(AuthError::KeyNotFound) && post == pre
    } else if !inactive(account_of(pre, account_id), now) {
        r == Err::<(), AuthError>(AuthError::AccountStillActive) && post == pre
    } else {
        r == Ok::<(), AuthError>(()) && post == reap_result(pre, account_id)
    }
}

// ---------------------------------------------------------------------------
// Paginated reads
// ---------------------------------------------------------------------------

/// The window of positions `offset .. offset + limit` of `s`, clipped to its
/// length.
pub open spec fn page<T>(s: Seq<T>, limit: u32, offset: u32) -> Seq<T> {
    let lo = if offset <= s.len() { offset as int } else { s.len() as int };
    let hi = if offset + limit <= s.len() { offset + limit } else { s.len() as int };
    s.subrange(lo, hi)
}

/// The handles of the accounts of `accounts` that satisfy the inactivity
/// predicate, in order.
pub open spec fn inactive_ids(accounts: Seq<AccountRecord>, now: u64) -> Seq<Seq<u8>> {
    accounts.filter(|a: AccountRecord| inactive(a, now)).map_values(
        |a: AccountRecord| a.account_id,
    )
}

/// What `get_inactive_accounts` returns: the handles of the accounts within
/// the scanned window that satisfy the inactivity predicate, in index
/// (insertion) order.
pub open spec fn inactive_page(s: StoreModel, limit: u32, offset: u32, now: u64) -> Seq<Seq<u8>> {
    inactive_ids(page(s.accounts, limit, offset), now)
}

/// What `get_keys` returns: the window of the account's records, or nothing
/// for an unregistered account.
pub open spec fn keys_page(s: StoreModel, account_id: Seq<u8>, limit: u32, offset: u32) -> Seq<KeyRecord> {
    if has_account(s, account_id) {
        page(account_of(s, account_id).keys, limit, offset)
    } else {
        Seq::empty()
    }
}

} // verus!
