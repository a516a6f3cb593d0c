//! The executable key store.
//!
//! [`AuthContractState`] holds the registered accounts in insertion order and
//! the pending event log. The embedding environment supplies the caller's
//! identity and the current millisecond instant as plain arguments and drains
//! the log; everything else — the decision rules, the uniqueness and
//! purge-when-empty invariants — lives and is proved here.

use vstd::prelude::*;

use crate::errors::AuthError;
use crate::events::{AuthEvent, EventRecord};
use crate::types::{KeyInfo, KeyRecord};
use crate::model::{
    AccountRecord, StoreModel, account_ids_unique, account_index, account_of, account_wf,
    authorized, dead_keys, extend_post, extend_result, fresh_record, has_account, has_key,
    has_key_in, inactive, inactive_ids, inactive_page, key_decision, key_expired, key_index_in,
    key_of, keys_page, keys_unique, keys_wf, live_keys, page, reap_post, reap_result,
    register_post, register_result, removal_events, remove_post, remove_result, rotate_post,
    rotate_result, sig_blobs, store_wf, sweep_post, sweep_result, threshold_ok, touch_result,
};

verus! {

/// One registered account: its handle, its key records in insertion order,
/// and the instant of its last activity.
pub struct AccountEntry {
    pub account_id: Vec<u8>,
    pub keys: Vec<KeyInfo>,
    pub last_active_timestamp: u64,
}

/// The key records of `keys`, as mathematical values.
pub open spec fn keys_model(keys: Vec<KeyInfo>) -> Seq<KeyRecord> {
    keys@.map_values(|k: KeyInfo| k@)
}

impl View for AccountEntry {
    type V = AccountRecord;

    open spec fn view(&self) -> AccountRecord {
        AccountRecord {
            account_id: self.account_id@,
            keys: keys_model(self.keys),
            last_active: self.last_active_timestamp,
        }
    }
}

/// The whole store: one explicit object, every operation takes it by
/// reference; no ambient state.
pub struct AuthContractState {
    /// Registered accounts, in insertion order. An account exists if and only
    /// if it holds at least one key record.
    pub accounts: Vec<AccountEntry>,
    /// Pending domain events, in emission order, strictly after the state
    /// change each one reports.
    pub events: Vec<AuthEvent>,
}

impl View for AuthContractState {
    type V = StoreModel;

    open spec fn view(&self) -> StoreModel {
        StoreModel {
            accounts: self.accounts@.map_values(|a: AccountEntry| a@),
            events: self.events@.map_values(|e: AuthEvent| e@),
        }
    }
}

/// Copies a byte string.
pub fn clone_bytes(v: &Vec<u8>) -> (r: Vec<u8>)
    ensures
        r@ == v@,
{
    let mut r: Vec<u8> = Vec::new();
    let mut i: usize = 0;
    while i < v.len()
        invariant
            i <= v@.len(),
            r@ == v@.take(i as int),
        decreases v@.len() - i,
    {
        r.push(v[i]);
        proof {
            assert(r@ =~= v@.take(i + 1));
        }
        i += 1;
    }
    proof {
        assert(r@ =~= v@);
    }
    r
}

/// Byte-string equality.
pub fn bytes_eq(a: &Vec<u8>, b: &Vec<u8>) -> (r: bool)
    ensures
        r == (a@ == b@),
{
    if a.len() != b.len() {
        return false;
    }
    let mut i: usize = 0;
    while i < a.len()
        invariant
            i <= a@.len(),
            a@.len() == b@.len(),
            forall|j: int| 0 <= j < i ==> a@[j] == b@[j],
        decreases a@.len() - i,
    {
        if a[i] != b[i] {
            return false;
        }
        i += 1;
    }
    proof {
        assert(a@ =~= b@);
    }
    true
}

/// Position of `public_key` among `keys`, which must carry pairwise distinct
/// public keys.
fn find_key_index(keys: &Vec<KeyInfo>, public_key: &Vec<u8>) -> (r: Option<usize>)
    requires
        keys_unique(keys_model(*keys)),
    ensures
        match r {
            Some(j) => {
                &&& (j as int) < keys_model(*keys).len()
                &&& has_key_in(keys_model(*keys), public_key@)
                &&& key_index_in(keys_model(*keys), public_key@) == j as int
            },
            None => !has_key_in(keys_model(*keys), public_key@),
        },
{
    let ghost km = keys_model(*keys);
    let mut i: usize = 0;
    while i < keys.len()
        invariant
            i <= km.len(),
            km == keys_model(*keys),
            km.len() == keys@.len(),
            keys_unique(km),
            forall|j: int| 0 <= j < i ==> (#[trigger] km[j]).public_key != public_key@,
        decreases km.len() - i,
    {
        if bytes_eq(&keys[i].public_key, public_key) {
            proof {
                assert(km[i as int].public_key == public_key@);
                let w = key_index_in(km, public_key@);
                assert(0 <= w < km.len() && km[w].public_key == public_key@);
                assert(w == i as int);
            }
            return Some(i);
        }
        i += 1;
    }
    None
}

impl AuthContractState {
    /// The store's invariant: account handles unique, every account non-empty
    /// with pairwise distinct keys and in-bound thresholds.
    pub open spec fn wf(&self) -> bool {
        store_wf(self@)
    }

    /// An empty store: no accounts, no pending events.
    pub fn new() -> (s: Self)
        ensures
            s.wf(),
            s@.accounts == Seq::<AccountRecord>::empty(),
            s@.events == Seq::<EventRecord>::empty(),
    {
        let s = AuthContractState { accounts: Vec::new(), events: Vec::new() };
        proof {
            assert(s@.accounts =~= Seq::<AccountRecord>::empty());
            assert(s@.events =~= Seq::<EventRecord>::empty());
        }
        s
    }

    /// Position of `account_id` in the account index.
    fn find_account(&self, account_id: &Vec<u8>) -> (r: Option<usize>)
        requires
            account_ids_unique(self@.accounts),
        ensures
            match r {
                Some(i) => {
                    &&& (i as int) < self@.accounts.len()
                    &&& has_account(self@, account_id@)
                    &&& account_index(self@, account_id@) == i as int
                },
                None => !has_account(self@, account_id@),
            },
    {
        let mut i: usize = 0;
        while i < self.accounts.len()
            invariant
                i <= self@.accounts.len(),
                self@.accounts.len() == self.accounts@.len(),
                account_ids_unique(self@.accounts),
                forall|j: int| 0 <= j < i ==> (#[trigger] self@.accounts[j]).account_id != account_id@,
            decreases self@.accounts.len() - i,
        {
            if bytes_eq(&self.accounts[i].account_id, account_id) {
                proof {
                    assert(self@.accounts[i as int].account_id == account_id@);
                    let w = account_index(self@, account_id@);
                    assert(0 <= w < self@.accounts.len() && self@.accounts[w].account_id == account_id@);
                    assert(w == i as int);
                }
                return Some(i);
            }
            i += 1;
        }
        None
    }

    /// Registers `public_key` for `account_id`: self-service only, thresholds
    /// capped at [`crate::MAX_MULTI_SIG_THRESHOLD`], one record per key per
    /// account. On success the record is inserted (the account and its index
    /// entry are created lazily on its first key), the account's last-active
    /// instant becomes `now`, and `KeyRegistered` is logged.
    pub fn register_key(
        &mut self,
        caller: &Vec<u8>,
        account_id: &Vec<u8>,
        public_key: Vec<u8>,
        expiration_days: Option<u32>,
        is_multi_sig: bool,
        multi_sig_threshold: Option<u32>,
        now: u64,
    ) -> (r: Result<(), AuthError>)
        requires
            old(self).wf(),
            expiration_days matches Some(d) ==> now + d * crate::MS_PER_DAY <= u64::MAX,
        ensures
            final(self).wf(),
            register_post(
                old(self)@,
                final(self)@,
                r,
                caller@,
                account_id@,
                public_key@,
                expiration_days,
                is_multi_sig,
                multi_sig_threshold,
                now,
            ),
            r == Ok::<(), AuthError>(()) ==> has_key(final(self)@, account_id@, public_key@),
    {
        let ghost pre = self@;
        let ghost rec_v = fresh_record(
            public_key@,
            expiration_days,
            is_multi_sig,
            multi_sig_threshold,
            now,
        );
        if !bytes_eq(caller, account_id) {
            return Err(AuthError::Unauthorized);
        }
        if let Some(t) = multi_sig_threshold {
            if t > crate::MAX_MULTI_SIG_THRESHOLD {
                return Err(AuthError::InvalidThreshold);
            }
        }
        let expiration_timestamp = match expiration_days {
            Some(d) => Some(now + (d as u64) * crate::MS_PER_DAY),
            None => None,
        };
        match self.find_account(account_id) {
            Some(i) => {
                proof {
                    assert(account_wf(pre.accounts[i as int]));
                    assert(pre.accounts[i as int].keys == keys_model(self.accounts@[i as int].keys));
                }
                if find_key_index(&self.accounts[i].keys, &public_key).is_some() {
                    return Err(AuthError::KeyAlreadyExists);
                }
                let record = KeyInfo {
                    public_key: clone_bytes(&public_key),
                    expiration_timestamp,
                    is_multi_sig,
                    multi_sig_threshold,
                };
                let entry = &mut self.accounts[i];
                entry.keys.push(record);
                entry.last_active_timestamp = now;
                proof {
                    let updated = AccountRecord {
                        account_id: pre.accounts[i as int].account_id,
                        keys: pre.accounts[i as int].keys.push(rec_v),
                        last_active: now,
                    };
                    assert(self@.accounts =~~= pre.accounts.update(i as int, updated));
                }
            },
            None => {
                let record = KeyInfo {
                    public_key: clone_bytes(&public_key),
                    expiration_timestamp,
                    is_multi_sig,
                    multi_sig_threshold,
                };
                let mut keys: Vec<KeyInfo> = Vec::new();
                keys.push(record);
                self.accounts.push(AccountEntry {
                    account_id: clone_bytes(account_id),
                    keys,
                    last_active_timestamp: now,
                });
                proof {
                    let created = AccountRecord {
                        account_id: account_id@,
                        keys: seq![rec_v],
                        last_active: now,
                    };
                    assert(self@.accounts =~~= pre.accounts.push(created));
                }
            },
        }
        self.events.push(AuthEvent::KeyRegistered {
            account_id: clone_bytes(account_id),
            public_key,
        });
        proof {
            assert(self@.events =~~= pre.events.push(
                EventRecord::KeyRegistered { account_id: account_id@, public_key: rec_v.public_key },
            ));
            assert(self@ =~~= register_result(pre, account_id@, rec_v, now));
            lemma_register_result_wf(pre, account_id@, rec_v, now);
            crate::laws::lemma_register_result_has_key(pre, account_id@, rec_v, now);
        }
        Ok(())
    }

    /// Removes `public_key` from `account_id`: self-service only. On success
    /// the record leaves, `KeyRemoved` is logged, and if the account's record
    /// collection is now empty the account, its activity timestamp and its
    /// index entry are purged in the same atomic step.
    pub fn remove_key(
        &mut self,
        caller: &Vec<u8>,
        account_id: &Vec<u8>,
        public_key: &Vec<u8>,
    ) -> (r: Result<(), AuthError>)
        requires
            old(self).wf(),
        ensures
            final(self).wf(),
            remove_post(old(self)@, final(self)@, r, caller@, account_id@, public_key@),
    {
        let ghost pre = self@;
        if !bytes_eq(caller, account_id) {
            return Err(AuthError::Unauthorized);
        }
        let i = match self.find_account(account_id) {
            Some(i) => i,
            None => {
                return Err(AuthError::KeyNotFound);
            },
        };
        proof {
            assert(account_wf(pre.accounts[i as int]));
            assert(pre.accounts[i as int].keys == keys_model(self.accounts@[i as int].keys));
        }
        let j = match find_key_index(&self.accounts[i].keys, public_key) {
            Some(j) => j,
            None => {
                return Err(AuthError::KeyNotFound);
            },
        };
        let entry = &mut self.accounts[i];
        let removed = entry.keys.remove(j);
        let now_empty = entry.keys.len() == 0;
        proof {
            assert(keys_model(self.accounts@[i as int].keys) =~~= pre.accounts[i as int].keys.remove(j as int));
        }
        if now_empty {
            let gone = self.accounts.remove(i);
            proof {
                assert(self@.accounts =~~= pre.accounts.remove(i as int));
            }
        } else {
            proof {
                let updated = AccountRecord {
                    account_id: pre.accounts[i as int].account_id,
                    keys: pre.accounts[i as int].keys.remove(j as int),
                    last_active: pre.accounts[i as int].last_active,
                };
                assert(self@.accounts =~~= pre.accounts.update(i as int, updated));
            }
        }
        self.events.push(AuthEvent::KeyRemoved {
            account_id: clone_bytes(account_id),
            public_key: clone_bytes(public_key),
        });
        proof {
            assert(self@.events =~~= pre.events.push(
                EventRecord::KeyRemoved { account_id: account_id@, public_key: public_key@ },
            ));
            assert(self@ =~~= remove_result(pre, account_id@, public_key@));
            lemma_remove_result_wf(pre, account_id@, public_key@);
        }
        Ok(())
    }

    /// Decides whether `public_key` (plus the presented signature blobs)
    /// authorizes `payload` for `account_id` at instant `now`.
    ///
    /// A missing account or record, an expired record, an undersized
    /// signature set, malformed byte lengths and a failed verification all
    /// yield `false`, never an error. On `true` the account's last-active
    /// instant becomes `now` — the only mutation on the authorization path;
    /// on `false` nothing moves.
    pub fn is_authorized(
        &mut self,
        account_id: &Vec<u8>,
        public_key: &Vec<u8>,
        signatures: Option<Vec<Vec<u8>>>,
        payload: &Vec<u8>,
        now: u64,
    ) -> (r: bool)
        requires
            old(self).wf(),
        ensures
            final(self).wf(),
            r == authorized(
                old(self)@,
                account_id@,
                public_key@,
                sig_blobs(signatures),
                payload@,
                now,
            ),
            r ==> final(self)@ == touch_result(old(self)@, account_id@, now),
            !r ==> final(self)@ == old(self)@,
    {
        let ghost pre = self@;
        let ghost sigs = sig_blobs(signatures);
        let i = match self.find_account(account_id) {
            Some(i) => i,
            None => {
                return false;
            },
        };
        proof {
            assert(account_wf(pre.accounts[i as int]));
            assert(pre.accounts[i as int].keys == keys_model(self.accounts@[i as int].keys));
        }
        let j = match find_key_index(&self.accounts[i].keys, public_key) {
            Some(j) => j,
            None => {
                return false;
            },
        };
        let key_info = &self.accounts[i].keys[j];
        let ghost k = key_of(pre, account_id@, public_key@);
        proof {
            assert(k == key_info@);
        }
        if let Some(expiration) = key_info.expiration_timestamp {
            if now > expiration {
                return false;
            }
        }
        let granted: bool;
        if key_info.is_multi_sig {
            let threshold = match key_info.multi_sig_threshold {
                Some(t) => t,
                None => 1,
            };
            let count = match &signatures {
                Some(v) => v.len(),
                None => 0,
            };
            proof {
                assert(signatures matches Some(sv) ==> sigs.len() == sv@.len());
            }
            granted = count >= threshold as usize;
        } else {
            match &signatures {
                Some(v) => {
                    if v.len() == 1 {
                        let sig = &v[0];
                        proof {
                            assert(sigs[0] =~= sig@);
                            assert(sigs.len() == v@.len());
                        }
                        if sig.len() == crate::ED25519_SIGNATURE_LEN
                            && key_info.public_key.len() == crate::ED25519_PUBLIC_KEY_LEN {
                            granted = crate::crypto::ed25519_verify(&key_info.public_key, sig, payload);
                        } else {
                            granted = false;
                        }
                    } else {
                        granted = false;
                    }
                },
                None => {
                    granted = false;
                },
            }
        }
        proof {
            assert(granted == key_decision(k, sigs, payload@, now));
        }
        if granted {
            let entry = &mut self.accounts[i];
            entry.last_active_timestamp = now;
            proof {
                let touched = AccountRecord {
                    account_id: pre.accounts[i as int].account_id,
                    keys: pre.accounts[i as int].keys,
                    last_active: now,
                };
                assert(self@.accounts =~~= pre.accounts.update(i as int, touched));
                assert(self@.events =~~= pre.events);
                assert(self@ =~~= touch_result(pre, account_id@, now));
                assert forall|p: int| 0 <= p < self@.accounts.len() implies
                    account_wf(#[trigger] self@.accounts[p]) by {
                    if p != i as int {
                        assert(self@.accounts[p] == pre.accounts[p]);
                    }
                }
                assert(account_ids_unique(self@.accounts));
            }
            true
        } else {
            false
        }
    }

    /// Atomically replaces `old_public_key` by `new_public_key` with the
    /// supplied policy: self-service only; the old record must exist and the
    /// new key must not collide. On success the account's last-active instant
    /// becomes `now` and `KeyRotated` is logged.
    pub fn rotate_key(
        &mut self,
        caller: &Vec<u8>,
        account_id: &Vec<u8>,
        old_public_key: &Vec<u8>,
        new_public_key: Vec<u8>,
        expiration_days: Option<u32>,
        is_multi_sig: bool,
        multi_sig_threshold: Option<u32>,
        now: u64,
    ) -> (r: Result<(), AuthError>)
        requires
            old(self).wf(),
            expiration_days matches Some(d) ==> now + d * crate::MS_PER_DAY <= u64::MAX,
        ensures
            final(self).wf(),
            rotate_post(
                old(self)@,
                final(self)@,
                r,
                caller@,
                account_id@,
                old_public_key@,
                new_public_key@,
                expiration_days,
                is_multi_sig,
                multi_sig_threshold,
                now,
            ),
    {
        let ghost pre = self@;
        let ghost rec_v = fresh_record(
            new_public_key@,
            expiration_days,
            is_multi_sig,
            multi_sig_threshold,
            now,
        );
        if !bytes_eq(caller, account_id) {
            return Err(AuthError::Unauthorized);
        }
        if let Some(t) = multi_sig_threshold {
            if t > crate::MAX_MULTI_SIG_THRESHOLD {
                return Err(AuthError::InvalidThreshold);
            }
        }
        let i = match self.find_account(account_id) {
            Some(i) => i,
            None => {
                return Err(AuthError::KeyNotFound);
            },
        };
        proof {
            assert(account_wf(pre.accounts[i as int]));
            assert(pre.accounts[i as int].keys == keys_model(self.accounts@[i as int].keys));
        }
        let j = match find_key_index(&self.accounts[i].keys, old_public_key) {
            Some(j) => j,
            None => {
                return Err(AuthError::KeyNotFound);
            },
        };
        if find_key_index(&self.accounts[i].keys, &new_public_key).is_some() {
            return Err(AuthError::KeyAlreadyExists);
        }
        let record = KeyInfo {
            public_key: clone_bytes(&new_public_key),
            expiration_timestamp: match expiration_days {
                Some(d) => Some(now + (d as u64) * crate::MS_PER_DAY),
                None => None,
            },
            is_multi_sig,
            multi_sig_threshold,
        };
        let entry = &mut self.accounts[i];
        let _removed = entry.keys.remove(j);
        entry.keys.push(record);
        entry.last_active_timestamp = now;
        self.events.push(AuthEvent::KeyRotated {
            account_id: clone_bytes(account_id),
            old_public_key: clone_bytes(old_public_key),
            new_public_key,
        });
        proof {
            let updated = AccountRecord {
                account_id: pre.accounts[i as int].account_id,
                keys: pre.accounts[i as int].keys.remove(j as int).push(rec_v),
                last_active: now,
            };
            assert(self@.accounts =~~= pre.accounts.update(i as int, updated));
            assert(self@.events =~~= pre.events.push(EventRecord::KeyRotated {
                account_id: account_id@,
                old_public_key: old_public_key@,
                new_public_key: rec_v.public_key,
            }));
            assert(self@ =~~= rotate_result(pre, account_id@, old_public_key@, rec_v, now));
            lemma_rotate_result_wf(pre, account_id@, old_public_key@, rec_v, now);
        }
        Ok(())
    }

    /// Resets the expiration of `account_id`'s record for `public_key` to
    /// `now` plus `additional_days` — an absolute reset, not additive to the
    /// prior expiration. Self-service only; `KeyExpirationExtended` is
    /// logged. Nothing else moves.
    pub fn extend_key_expiration(
        &mut self,
        caller: &Vec<u8>,
        account_id: &Vec<u8>,
        public_key: &Vec<u8>,
        additional_days: u32,
        now: u64,
    ) -> (r: Result<(), AuthError>)
        requires
            old(self).wf(),
            now + additional_days * crate::MS_PER_DAY <= u64::MAX,
        ensures
            final(self).wf(),
            extend_post(
                old(self)@,
                final(self)@,
                r,
                caller@,
                account_id@,
                public_key@,
                additional_days,
                now,
            ),
    {
        let ghost pre = self@;
        if !bytes_eq(caller, account_id) {
            return Err(AuthError::Unauthorized);
        }
        let i = match self.find_account(account_id) {
            Some(i) => i,
            None => {
                return Err(AuthError::KeyNotFound);
            },
        };
        proof {
            assert(account_wf(pre.accounts[i as int]));
            assert(pre.accounts[i as int].keys == keys_model(self.accounts@[i as int].keys));
        }
        let j = match find_key_index(&self.accounts[i].keys, public_key) {
            Some(j) => j,
            None => {
                return Err(AuthError::KeyNotFound);
            },
        };
        let new_expiration = now + (additional_days as u64) * crate::MS_PER_DAY;
        let entry = &mut self.accounts[i];
        let record = &mut entry.keys[j];
        record.expiration_timestamp = Some(new_expiration);
        self.events.push(AuthEvent::KeyExpirationExtended {
            account_id: clone_bytes(account_id),
            public_key: clone_bytes(public_key),
            new_expiration,
        });
        proof {
            let old_rec = pre.accounts[i as int].keys[j as int];
            let new_rec = KeyRecord {
                public_key: old_rec.public_key,
                expiration_timestamp: Some(new_expiration),
                is_multi_sig: old_rec.is_multi_sig,
                multi_sig_threshold: old_rec.multi_sig_threshold,
            };
            let updated = AccountRecord {
                account_id: pre.accounts[i as int].account_id,
                keys: pre.accounts[i as int].keys.update(j as int, new_rec),
                last_active: pre.accounts[i as int].last_active,
            };
            assert(self@.accounts =~~= pre.accounts.update(i as int, updated));
            assert(self@.events =~~= pre.events.push(EventRecord::KeyExpirationExtended {
                account_id: account_id@,
                public_key: public_key@,
                new_expiration,
            }));
            assert(self@ =~~= extend_result(pre, account_id@, public_key@, additional_days, now));
            lemma_extend_result_wf(pre, account_id@, public_key@, additional_days, now);
        }
        Ok(())
    }

    /// Removes every record of `account_id` whose expiration lies strictly
    /// before `now`, logging `KeyRemoved` per removal in record order. An
    /// account left without records is purged atomically; an unregistered
    /// account is refused.
    pub fn remove_expired_keys(&mut self, account_id: &Vec<u8>, now: u64) -> (r: Result<
        (),
        AuthError,
    >)
        requires
            old(self).wf(),
        ensures
            final(self).wf(),
            sweep_post(old(self)@, final(self)@, r, account_id@, now),
    {
        let ghost pre = self@;
        let i = match self.find_account(account_id) {
            Some(i) => i,
            None => {
                return Err(AuthError::KeyNotFound);
            },
        };
        proof {
            assert(account_wf(pre.accounts[i as int]));
            assert(pre.accounts[i as int].keys == keys_model(self.accounts@[i as int].keys));
        }
        let ghost orig = pre.accounts[i as int].keys;
        let mut kept: Vec<KeyInfo> = Vec::new();
        let n = self.accounts[i].keys.len();
        let mut idx: usize = 0;
        while idx < n
            invariant
                idx <= n,
                (i as int) < pre.accounts.len(),
                self@.accounts == pre.accounts,
                orig == pre.accounts[i as int].keys,
                orig == keys_model(self.accounts@[i as int].keys),
                n == orig.len(),
                keys_model(kept) == live_keys(orig.take(idx as int), now),
                self@.events == pre.events + removal_events(
                    account_id@,
                    dead_keys(orig.take(idx as int), now),
                ),
            decreases n - idx,
        {
            let ghost seen = orig.take(idx as int);
            proof {
                assert(orig.take(idx + 1) =~= seen.push(orig[idx as int]));
                lemma_split_push(seen, orig[idx as int], now);
            }
            let record = &self.accounts[i].keys[idx];
            proof {
                assert(record@ == orig[idx as int]);
            }
            let expired = match record.expiration_timestamp {
                Some(e) => now > e,
                None => false,
            };
            if expired {
                let public_key = clone_bytes(&self.accounts[i].keys[idx].public_key);
                self.events.push(AuthEvent::KeyRemoved {
                    account_id: clone_bytes(account_id),
                    public_key,
                });
                proof {
                    let e_rec = EventRecord::KeyRemoved {
                        account_id: account_id@,
                        public_key: orig[idx as int].public_key,
                    };
                    let r_seen = removal_events(account_id@, dead_keys(seen, now));
                    assert(dead_keys(orig.take(idx + 1), now) == dead_keys(seen, now).push(
                        orig[idx as int],
                    ));
                    assert(removal_events(account_id@, dead_keys(orig.take(idx + 1), now))
                        =~= r_seen.push(e_rec));
                    assert(self@.events =~= (pre.events + r_seen).push(e_rec));
                    assert((pre.events + r_seen).push(e_rec) =~= pre.events + r_seen.push(e_rec));
                    assert(self@.events == pre.events + removal_events(
                        account_id@,
                        dead_keys(orig.take(idx + 1), now),
                    ));
                }
            } else {
                kept.push(self.accounts[i].keys[idx].clone());
                proof {
                    assert(keys_model(kept) =~= live_keys(orig.take(idx + 1), now));
                }
            }
            idx += 1;
        }
        proof {
            assert(orig.take(n as int) =~= orig);
        }
        if kept.len() == 0 {
            let _gone = self.accounts.remove(i);
            proof {
                assert(self@.accounts =~~= pre.accounts.remove(i as int));
            }
        } else {
            let entry = &mut self.accounts[i];
            entry.keys = kept;
            proof {
                let updated = AccountRecord {
                    account_id: pre.accounts[i as int].account_id,
                    keys: live_keys(orig, now),
                    last_active: pre.accounts[i as int].last_active,
                };
                assert(self@.accounts =~~= pre.accounts.update(i as int, updated));
            }
        }
        proof {
            assert(self@ =~~= sweep_result(pre, account_id@, now));
            lemma_sweep_result_wf(pre, account_id@, now);
        }
        Ok(())
    }

    /// Reaps `account_id` if its last activity lies more than the inactivity
    /// window before `now`: every record leaves (each logged as `KeyRemoved`,
    /// in record order) and the account is purged entirely. Inside the window
    /// the reap is refused with `AccountStillActive`; an unregistered account
    /// with `KeyNotFound`.
    pub fn remove_inactive_accounts(&mut self, account_id: &Vec<u8>, now: u64) -> (r: Result<
        (),
        AuthError,
    >)
        requires
            old(self).wf(),
        ensures
            final(self).wf(),
            reap_post(old(self)@, final(self)@, r, account_id@, now),
    {
        let ghost pre = self@;
        let i = match self.find_account(account_id) {
            Some(i) => i,
            None => {
                return Err(AuthError::KeyNotFound);
            },
        };
        proof {
            assert(account_wf(pre.accounts[i as int]));
            assert(pre.accounts[i as int].keys == keys_model(self.accounts@[i as int].keys));
        }
        let last_active = self.accounts[i].last_active_timestamp;
        if !(now > crate::INACTIVITY_WINDOW_MS && last_active < now - crate::INACTIVITY_WINDOW_MS) {
            proof {
                assert(!inactive(pre.accounts[i as int], now));
            }
            return Err(AuthError::AccountStillActive);
        }
        let ghost orig = pre.accounts[i as int].keys;
        let n = self.accounts[i].keys.len();
        let mut idx: usize = 0;
        while idx < n
            invariant
                idx <= n,
                (i as int) < pre.accounts.len(),
                self@.accounts == pre.accounts,
                orig == pre.accounts[i as int].keys,
                orig == keys_model(self.accounts@[i as int].keys),
                n == orig.len(),
                self@.events == pre.events + removal_events(account_id@, orig.take(idx as int)),
            decreases n - idx,
        {
            let public_key = clone_bytes(&self.accounts[i].keys[idx].public_key);
            self.events.push(AuthEvent::KeyRemoved {
                account_id: clone_bytes(account_id),
                public_key,
            });
            proof {
                let e_rec = EventRecord::KeyRemoved {
                    account_id: account_id@,
                    public_key: orig[idx as int].public_key,
                };
                let r_seen = removal_events(account_id@, orig.take(idx as int));
                assert(orig.take(idx + 1) =~= orig.take(idx as int).push(orig[idx as int]));
                assert(removal_events(account_id@, orig.take(idx + 1)) =~= r_seen.push(e_rec));
                assert(self@.events =~= (pre.events + r_seen).push(e_rec));
                assert((pre.events + r_seen).push(e_rec) =~= pre.events + r_seen.push(e_rec));
                assert(self@.events == pre.events + removal_events(account_id@, orig.take(idx + 1)));
            }
            idx += 1;
        }
        let _gone = self.accounts.remove(i);
        proof {
            assert(orig.take(n as int) =~= orig);
            assert(self@.accounts =~~= pre.accounts.remove(i as int));
            assert(self@ =~~= reap_result(pre, account_id@));
            lemma_reap_result_wf(pre, account_id@);
        }
        Ok(())
    }

    /// Read-only paginated scan of the account index: the handles at index
    /// positions `offset .. offset + limit` whose last activity lies more
    /// than the inactivity window before `now`, in insertion order.
    pub fn get_inactive_accounts(&self, limit: u32, offset: u32, now: u64) -> (r: Vec<Vec<u8>>)
        requires
            self.wf(),
            limit <= crate::MAX_PAGE_LIMIT,
            offset + limit <= u32::MAX,
        ensures
            r.deep_view() == inactive_page(self@, limit, offset, now),
            r@.len() <= limit,
            forall|t: int| 0 <= t < r@.len() ==> {
                &&& has_account(self@, #[trigger] r.deep_view()[t])
                &&& inactive(account_of(self@, r.deep_view()[t]), now)
            },
    {
        let ghost accs = self@.accounts;
        let mut result: Vec<Vec<u8>> = Vec::new();
        if offset as usize >= self.accounts.len() {
            proof {
                assert(page(accs, limit, offset) =~= Seq::<AccountRecord>::empty());
                lemma_inactive_ids_empty(now);
                assert(result.deep_view() =~= Seq::<Seq<u8>>::empty());
            }
            return result;
        }
        let end32 = offset + limit;
        let end = end32 as usize;
        let mut idx: usize = offset as usize;
        while idx < self.accounts.len() && idx < end
            invariant
                accs == self@.accounts,
                offset as int <= idx as int,
                idx as int <= accs.len(),
                idx <= end,
                end == offset + limit,
                offset as int <= accs.len(),
                result.deep_view() == inactive_ids(accs.subrange(offset as int, idx as int), now),
            decreases accs.len() - idx,
        {
            let ghost seen = accs.subrange(offset as int, idx as int);
            let entry = &self.accounts[idx];
            proof {
                assert(entry@ == accs[idx as int]);
                assert(accs.subrange(offset as int, idx + 1) =~= seen.push(accs[idx as int]));
                lemma_inactive_ids_push(seen, accs[idx as int], now);
            }
            let is_inactive = now > crate::INACTIVITY_WINDOW_MS
                && entry.last_active_timestamp < now - crate::INACTIVITY_WINDOW_MS;
            proof {
                assert(is_inactive == inactive(accs[idx as int], now));
            }
            if is_inactive {
                let ghost old_dv = result.deep_view();
                result.push(clone_bytes(&entry.account_id));
                proof {
                    assert(result.deep_view() =~~= old_dv.push(accs[idx as int].account_id));
                    assert(result.deep_view() == inactive_ids(
                        accs.subrange(offset as int, idx + 1),
                        now,
                    ));
                }
            } else {
                proof {
                    assert(result.deep_view() == inactive_ids(
                        accs.subrange(offset as int, idx + 1),
                        now,
                    ));
                }
            }
            idx += 1;
        }
        proof {
            let window = page(accs, limit, offset);
            assert(accs.subrange(offset as int, idx as int) =~= window);
            lemma_inactive_ids_len(window, now);
            assert(window.len() <= limit);
            assert forall|t: int| 0 <= t < result@.len() implies {
                &&& has_account(self@, #[trigger] result.deep_view()[t])
                &&& inactive(account_of(self@, result.deep_view()[t]), now)
            } by {
                let ids = inactive_ids(window, now);
                assert(result.deep_view()[t] == ids[t]);
                lemma_inactive_ids_at(window, now, t);
                let w = choose|w: int| {
                    &&& 0 <= w < window.len()
                    &&& (#[trigger] window[w]).account_id == inactive_ids(window, now)[t]
                    &&& inactive(window[w], now)
                };
                assert(window[w] == accs[w + offset]);
                assert(has_account(self@, result.deep_view()[t]));
                let u = account_index(self@, result.deep_view()[t]);
                assert(accs[u].account_id == accs[w + offset].account_id);
                assert(u == w + offset);
            }
        }
        result
    }

    /// The record that `account_id` holds for `public_key`, if any. An
    /// unregistered account or an unknown key yields nothing.
    pub fn get_key_info(&self, account_id: &Vec<u8>, public_key: &Vec<u8>) -> (r: Option<KeyInfo>)
        requires
            self.wf(),
        ensures
            match r {
                Some(k) => {
                    &&& has_key(self@, account_id@, public_key@)
                    &&& k@ == key_of(self@, account_id@, public_key@)
                },
                None => !has_key(self@, account_id@, public_key@),
            },
    {
        let i = match self.find_account(account_id) {
            Some(i) => i,
            None => {
                return None;
            },
        };
        proof {
            assert(account_wf(self@.accounts[i as int]));
            assert(self@.accounts[i as int].keys == keys_model(self.accounts@[i as int].keys));
        }
        let j = match find_key_index(&self.accounts[i].keys, public_key) {
            Some(j) => j,
            None => {
                return None;
            },
        };
        Some(self.accounts[i].keys[j].clone())
    }

    /// The expiration instant of `account_id`'s record for `public_key`:
    /// nothing for a missing record, and nothing for a record that never
    /// expires.
    pub fn check_key_expiration(&self, account_id: &Vec<u8>, public_key: &Vec<u8>) -> (r: Option<
        u64,
    >)
        requires
            self.wf(),
        ensures
            r == (if has_key(self@, account_id@, public_key@) {
                key_of(self@, account_id@, public_key@).expiration_timestamp
            } else {
                None::<u64>
            }),
    {
        match self.get_key_info(account_id, public_key) {
            Some(k) => k.expiration_timestamp,
            None => None,
        }
    }

    /// Read-only paginated view of `account_id`'s records: the records at
    /// positions `offset .. offset + limit`, in insertion order; nothing for
    /// an unregistered account.
    pub fn get_keys(&self, account_id: &Vec<u8>, limit: u32, offset: u32) -> (r: Vec<KeyInfo>)
        requires
            self.wf(),
            limit <= crate::MAX_PAGE_LIMIT,
            offset + limit <= u32::MAX,
        ensures
            keys_model(r) == keys_page(self@, account_id@, limit, offset),
    {
        let mut result: Vec<KeyInfo> = Vec::new();
        let i = match self.find_account(account_id) {
            Some(i) => i,
            None => {
                proof {
                    assert(keys_model(result) =~= Seq::<KeyRecord>::empty());
                }
                return result;
            },
        };
        proof {
            assert(self@.accounts[i as int].keys == keys_model(self.accounts@[i as int].keys));
        }
        let ghost orig = self@.accounts[i as int].keys;
        let n = self.accounts[i].keys.len();
        if offset as usize >= n {
            proof {
                assert(page(orig, limit, offset) =~= Seq::<KeyRecord>::empty());
                assert(keys_model(result) =~= Seq::<KeyRecord>::empty());
            }
            return result;
        }
        let end32 = offset + limit;
        let end = end32 as usize;
        let mut idx: usize = offset as usize;
        while idx < n && idx < end
            invariant
                (i as int) < self@.accounts.len(),
                orig == self@.accounts[i as int].keys,
                orig == keys_model(self.accounts@[i as int].keys),
                n == orig.len(),
                offset as int <= idx as int,
                idx as int <= orig.len(),
                idx <= end,
                end == offset + limit,
                offset as int <= orig.len(),
                keys_model(result) == orig.subrange(offset as int, idx as int),
            decreases n - idx,
        {
            result.push(self.accounts[i].keys[idx].clone());
            proof {
                assert(orig.subrange(offset as int, idx + 1) =~= orig.subrange(
                    offset as int,
                    idx as int,
                ).push(orig[idx as int]));
                assert(keys_model(result) =~= orig.subrange(offset as int, idx + 1));
            }
            idx += 1;
        }
        proof {
            assert(orig.subrange(offset as int, idx as int) =~= page(orig, limit, offset));
        }
        result
    }

    /// Hands the pending event log to the embedder, in emission order,
    /// leaving it empty. No account moves.
    pub fn drain_events(&mut self) -> (evs: Vec<AuthEvent>)
        ensures
            evs@.map_values(|e: AuthEvent| e@) == old(self)@.events,
            final(self)@.events == Seq::<EventRecord>::empty(),
            final(self)@.accounts == old(self)@.accounts,
            old(self).wf() ==> final(self).wf(),
    {
        let mut evs: Vec<AuthEvent> = Vec::new();
        core::mem::swap(&mut evs, &mut self.events);
        proof {
            assert(self@.events =~= Seq::<EventRecord>::empty());
        }
        evs
    }
}

/// No account of an empty window is inactive.
proof fn lemma_inactive_ids_empty(now: u64)
    ensures
        inactive_ids(Seq::<AccountRecord>::empty(), now) == Seq::<Seq<u8>>::empty(),
{
    reveal(Seq::filter);
    assert(inactive_ids(Seq::<AccountRecord>::empty(), now) =~= Seq::<Seq<u8>>::empty());
}

/// How the inactive-handle selection grows by one account.
proof fn lemma_inactive_ids_push(accounts: Seq<AccountRecord>, a: AccountRecord, now: u64)
    ensures
        inactive_ids(accounts.push(a), now) == (if inactive(a, now) {
            inactive_ids(accounts, now).push(a.account_id)
        } else {
            inactive_ids(accounts, now)
        }),
{
    reveal(Seq::filter);
    assert(accounts.push(a).drop_last() =~= accounts);
    assert(accounts.push(a).last() == a);
    let pred = |x: AccountRecord| inactive(x, now);
    if inactive(a, now) {
        assert(accounts.push(a).filter(pred) == accounts.filter(pred).push(a));
        assert(inactive_ids(accounts.push(a), now) =~= inactive_ids(accounts, now).push(
            a.account_id,
        ));
    } else {
        assert(inactive_ids(accounts.push(a), now) =~= inactive_ids(accounts, now));
    }
}

/// No more handles come out of the inactive-handle selection than accounts
/// went in.
proof fn lemma_inactive_ids_len(accounts: Seq<AccountRecord>, now: u64)
    ensures
        inactive_ids(accounts, now).len() <= accounts.len(),
    decreases accounts.len(),
{
    if accounts.len() == 0 {
        assert(accounts =~= Seq::<AccountRecord>::empty());
        lemma_inactive_ids_empty(now);
    } else {
        let init = accounts.drop_last();
        lemma_inactive_ids_len(init, now);
        assert(init.push(accounts.last()) =~= accounts);
        lemma_inactive_ids_push(init, accounts.last(), now);
    }
}

/// The handle at position `t` of the inactive-handle selection names an
/// account of the scanned window that satisfies the inactivity predicate.
proof fn lemma_inactive_ids_at(accounts: Seq<AccountRecord>, now: u64, t: int)
    requires
        0 <= t < inactive_ids(accounts, now).len(),
    ensures
        exists|w: int| {
            &&& 0 <= w < accounts.len()
            &&& (#[trigger] accounts[w]).account_id == inactive_ids(accounts, now)[t]
            &&& inactive(accounts[w], now)
        },
    decreases accounts.len(),
{
    let ids = inactive_ids(accounts, now);
    if accounts.len() == 0 {
        assert(accounts =~= Seq::<AccountRecord>::empty());
        lemma_inactive_ids_empty(now);
    } else {
        let init = accounts.drop_last();
        let last = accounts.last();
        let sub = inactive_ids(init, now);
        assert(init.push(last) =~= accounts);
        lemma_inactive_ids_push(init, last, now);
        if t < sub.len() {
            lemma_inactive_ids_at(init, now, t);
            assert(ids[t] == inactive_ids(init, now)[t]);
            let w0 = choose|w: int| {
                &&& 0 <= w < init.len()
                &&& (#[trigger] init[w]).account_id == inactive_ids(init, now)[t]
                &&& inactive(init[w], now)
            };
            assert(accounts[w0] == init[w0]);
            assert(0 <= w0 < accounts.len()
                && accounts[w0].account_id == inactive_ids(accounts, now)[t]
                && inactive(accounts[w0], now));
        } else {
            assert(inactive(last, now));
            assert(ids[t] == last.account_id);
            assert(accounts[accounts.len() - 1] == last);
            assert(0 <= accounts.len() - 1 < accounts.len()
                && accounts[accounts.len() - 1].account_id == inactive_ids(accounts, now)[t]
                && inactive(accounts[accounts.len() - 1], now));
        }
    }
}

/// Removing one account keeps the remaining handles pairwise distinct.
proof fn lemma_account_ids_unique_remove(accounts: Seq<AccountRecord>, i: int)
    requires
        account_ids_unique(accounts),
        0 <= i < accounts.len(),
    ensures
        account_ids_unique(accounts.remove(i)),
{
    let rest = accounts.remove(i);
    assert forall|p: int, q: int| 0 <= p < q < rest.len() implies
        rest[p].account_id != rest[q].account_id by {
        let p0: int = if p < i { p } else { p + 1 };
        let q0: int = if q < i { q } else { q + 1 };
        assert(rest[p] == accounts[p0]);
        assert(rest[q] == accounts[q0]);
    }
}

/// Removing one record keeps a key collection well formed.
proof fn lemma_keys_wf_remove(keys: Seq<KeyRecord>, j: int)
    requires
        keys_wf(keys),
        0 <= j < keys.len(),
    ensures
        keys_wf(keys.remove(j)),
{
    let rest = keys.remove(j);
    assert forall|p: int, q: int| 0 <= p < q < rest.len() implies
        rest[p].public_key != rest[q].public_key by {
        let p0: int = if p < j { p } else { p + 1 };
        let q0: int = if q < j { q } else { q + 1 };
        assert(rest[p] == keys[p0]);
        assert(rest[q] == keys[q0]);
    }
    assert forall|p: int| 0 <= p < rest.len() implies threshold_ok(#[trigger] rest[p]) by {
        let p0: int = if p < j { p } else { p + 1 };
        assert(rest[p] == keys[p0]);
    }
}

/// A removal of a record the account holds preserves the store's invariant.
proof fn lemma_remove_result_wf(s: StoreModel, account_id: Seq<u8>, public_key: Seq<u8>)
    requires
        store_wf(s),
        has_key(s, account_id, public_key),
    ensures
        store_wf(remove_result(s, account_id, public_key)),
{
    let post = remove_result(s, account_id, public_key);
    let i = account_index(s, account_id);
    let a = s.accounts[i];
    let j = key_index_in(a.keys, public_key);
    let keys1 = a.keys.remove(j);
    lemma_keys_wf_remove(a.keys, j);
    if keys1.len() == 0 {
        lemma_account_ids_unique_remove(s.accounts, i);
        assert forall|p: int| 0 <= p < post.accounts.len() implies
            account_wf(#[trigger] post.accounts[p]) by {
            let p0: int = if p < i { p } else { p + 1 };
            assert(post.accounts[p] == s.accounts[p0]);
        }
    } else {
        assert(account_wf(post.accounts[i]));
        assert forall|p: int| 0 <= p < post.accounts.len() implies
            account_wf(#[trigger] post.accounts[p]) by {
            if p != i {
                assert(post.accounts[p] == s.accounts[p]);
            }
        }
        assert(account_ids_unique(post.accounts));
    }
}

/// Appending a record with a fresh key and an in-bound threshold keeps a key
/// collection well formed.
proof fn lemma_keys_wf_push(keys: Seq<KeyRecord>, rec: KeyRecord)
    requires
        keys_wf(keys),
        threshold_ok(rec),
        !has_key_in(keys, rec.public_key),
    ensures
        keys_wf(keys.push(rec)),
{
    let keys1 = keys.push(rec);
    assert forall|p: int, q: int| 0 <= p < q < keys1.len() implies
        keys1[p].public_key != keys1[q].public_key by {
        if q == keys1.len() - 1 {
            assert(keys1[p] == keys[p]);
        }
    }
    assert forall|p: int| 0 <= p < keys1.len() implies threshold_ok(#[trigger] keys1[p]) by {
        if p < keys.len() {
            assert(keys1[p] == keys[p]);
        }
    }
}

/// A rotation whose old key the account holds, whose new key it does not,
/// and whose threshold is in bounds preserves the store's invariant.
proof fn lemma_rotate_result_wf(
    s: StoreModel,
    account_id: Seq<u8>,
    old_public_key: Seq<u8>,
    rec: KeyRecord,
    now: u64,
)
    requires
        store_wf(s),
        has_key(s, account_id, old_public_key),
        !has_key(s, account_id, rec.public_key),
        threshold_ok(rec),
    ensures
        store_wf(rotate_result(s, account_id, old_public_key, rec, now)),
{
    let post = rotate_result(s, account_id, old_public_key, rec, now);
    let i = account_index(s, account_id);
    let a = s.accounts[i];
    let j = key_index_in(a.keys, old_public_key);
    let trimmed = a.keys.remove(j);
    lemma_keys_wf_remove(a.keys, j);
    assert forall|p: int| 0 <= p < trimmed.len() implies
        (#[trigger] trimmed[p]).public_key != rec.public_key by {
        let p0: int = if p < j { p } else { p + 1 };
        assert(trimmed[p] == a.keys[p0]);
        assert(!has_key_in(a.keys, rec.public_key));
    }
    lemma_keys_wf_push(trimmed, rec);
    assert(account_wf(post.accounts[i]));
    assert forall|p: int| 0 <= p < post.accounts.len() implies
        account_wf(#[trigger] post.accounts[p]) by {
        if p != i {
            assert(post.accounts[p] == s.accounts[p]);
        }
    }
    assert(account_ids_unique(post.accounts));
}

/// An expiration reset of a record the account holds preserves the store's
/// invariant: neither the key nor the threshold moves.
proof fn lemma_extend_result_wf(
    s: StoreModel,
    account_id: Seq<u8>,
    public_key: Seq<u8>,
    additional_days: u32,
    now: u64,
)
    requires
        store_wf(s),
        has_key(s, account_id, public_key),
    ensures
        store_wf(extend_result(s, account_id, public_key, additional_days, now)),
{
    let post = extend_result(s, account_id, public_key, additional_days, now);
    let i = account_index(s, account_id);
    let a = s.accounts[i];
    let j = key_index_in(a.keys, public_key);
    let keys1 = post.accounts[i].keys;
    assert(keys1.len() == a.keys.len());
    assert forall|p: int| 0 <= p < keys1.len() implies
        (#[trigger] keys1[p]).public_key == a.keys[p].public_key
        && keys1[p].multi_sig_threshold == a.keys[p].multi_sig_threshold by {
        if p != j {
            assert(keys1[p] == a.keys[p]);
        }
    }
    assert(account_wf(post.accounts[i]));
    assert forall|p: int| 0 <= p < post.accounts.len() implies
        account_wf(#[trigger] post.accounts[p]) by {
        if p != i {
            assert(post.accounts[p] == s.accounts[p]);
        }
    }
    assert(account_ids_unique(post.accounts));
}

/// How the expired/live split of a key collection grows by one record.
proof fn lemma_split_push(keys: Seq<KeyRecord>, k: KeyRecord, now: u64)
    ensures
        live_keys(keys.push(k), now) == (if !key_expired(k, now) {
            live_keys(keys, now).push(k)
        } else {
            live_keys(keys, now)
        }),
        dead_keys(keys.push(k), now) == (if key_expired(k, now) {
            dead_keys(keys, now).push(k)
        } else {
            dead_keys(keys, now)
        }),
{
    reveal(Seq::filter);
    assert(keys.push(k).drop_last() =~= keys);
    assert(keys.push(k).last() == k);
}

/// The records surviving a sweep are records of the original collection, and
/// they stay well formed.
proof fn lemma_live_keys_wf(keys: Seq<KeyRecord>, now: u64)
    requires
        keys_wf(keys),
    ensures
        keys_wf(live_keys(keys, now)),
        forall|p: int| 0 <= p < live_keys(keys, now).len() ==>
            has_key_in(keys, (#[trigger] live_keys(keys, now)[p]).public_key),
    decreases keys.len(),
{
    let live = live_keys(keys, now);
    if keys.len() == 0 {
        reveal(Seq::filter);
    } else {
        let init = keys.drop_last();
        let last = keys.last();
        assert forall|p: int, q: int| 0 <= p < q < init.len() implies
            init[p].public_key != init[q].public_key by {
            assert(init[p] == keys[p]);
            assert(init[q] == keys[q]);
        }
        assert forall|p: int| 0 <= p < init.len() implies threshold_ok(#[trigger] init[p]) by {
            assert(init[p] == keys[p]);
        }
        lemma_live_keys_wf(init, now);
        let sub = live_keys(init, now);
        assert(init.push(last) =~= keys);
        lemma_split_push(init, last, now);
        if !key_expired(last, now) {
            assert(live == sub.push(last));
            assert forall|p: int, q: int| 0 <= p < q < live.len() implies
                live[p].public_key != live[q].public_key by {
                if q == live.len() - 1 {
                    assert(live[p] == sub[p]);
                    assert(has_key_in(init, sub[p].public_key));
                    let w = choose|w: int|
                        0 <= w < init.len() && (#[trigger] init[w]).public_key == sub[p].public_key;
                    assert(keys[w] == init[w]);
                    assert(keys[w].public_key != keys[keys.len() - 1].public_key);
                }
            }
            assert forall|p: int| 0 <= p < live.len() implies threshold_ok(#[trigger] live[p]) by {
                if p < sub.len() {
                    assert(live[p] == sub[p]);
                }
            }
            assert forall|p: int| 0 <= p < live.len() implies
                has_key_in(keys, (#[trigger] live[p]).public_key) by {
                if p < sub.len() {
                    assert(live[p] == sub[p]);
                    let w = choose|w: int|
                        0 <= w < init.len() && (#[trigger] init[w]).public_key == sub[p].public_key;
                    assert(keys[w] == init[w]);
                } else {
                    assert(live[p] == keys[keys.len() - 1]);
                }
            }
        } else {
            assert(live == sub);
            assert forall|p: int| 0 <= p < live.len() implies
                has_key_in(keys, (#[trigger] live[p]).public_key) by {
                let w = choose|w: int|
                    0 <= w < init.len() && (#[trigger] init[w]).public_key == sub[p].public_key;
                assert(keys[w] == init[w]);
            }
        }
    }
}

/// A sweep of an existing account preserves the store's invariant.
#[verifier::rlimit(30)]
proof fn lemma_sweep_result_wf(s: StoreModel, account_id: Seq<u8>, now: u64)
    requires
        store_wf(s),
        has_account(s, account_id),
    ensures
        store_wf(sweep_result(s, account_id, now)),
{
    let post = sweep_result(s, account_id, now);
    let i = account_index(s, account_id);
    let a = s.accounts[i];
    lemma_live_keys_wf(a.keys, now);
    if live_keys(a.keys, now).len() == 0 {
        lemma_account_ids_unique_remove(s.accounts, i);
        assert forall|p: int| 0 <= p < post.accounts.len() implies
            account_wf(#[trigger] post.accounts[p]) by {
            let p0: int = if p < i { p } else { p + 1 };
            assert(post.accounts[p] == s.accounts[p0]);
        }
    } else {
        assert(account_wf(post.accounts[i]));
        assert forall|p: int| 0 <= p < post.accounts.len() implies
            account_wf(#[trigger] post.accounts[p]) by {
            if p != i {
                assert(post.accounts[p] == s.accounts[p]);
            }
        }
        assert(account_ids_unique(post.accounts));
    }
}

/// A reap of an existing account preserves the store's invariant.
proof fn lemma_reap_result_wf(s: StoreModel, account_id: Seq<u8>)
    requires
        store_wf(s),
        has_account(s, account_id),
    ensures
        store_wf(reap_result(s, account_id)),
{
    let post = reap_result(s, account_id);
    let i = account_index(s, account_id);
    lemma_account_ids_unique_remove(s.accounts, i);
    assert forall|p: int| 0 <= p < post.accounts.len() implies
        account_wf(#[trigger] post.accounts[p]) by {
        let p0: int = if p < i { p } else { p + 1 };
        assert(post.accounts[p] == s.accounts[p0]);
    }
}

/// A registration of a record whose key the account does not yet hold, and
/// whose threshold is in bounds, preserves the store's invariant.
proof fn lemma_register_result_wf(s: StoreModel, account_id: Seq<u8>, rec: KeyRecord, now: u64)
    requires
        store_wf(s),
        crate::model::threshold_ok(rec),
        !has_key(s, account_id, rec.public_key),
    ensures
        store_wf(register_result(s, account_id, rec, now)),
{
    let post = register_result(s, account_id, rec, now);
    if has_account(s, account_id) {
        let i = account_index(s, account_id);
        let a = s.accounts[i];
        assert(account_wf(a));
        let keys1 = a.keys.push(rec);
        assert forall|p: int, q: int| 0 <= p < q < keys1.len() implies
            keys1[p].public_key != keys1[q].public_key by {
            if q == keys1.len() - 1 {
                assert(keys1[p] == a.keys[p]);
                assert(!has_key_in(a.keys, rec.public_key));
            }
        }
        assert(account_wf(post.accounts[i]));
        assert forall|j: int| 0 <= j < post.accounts.len() implies
            account_wf(#[trigger] post.accounts[j]) by {
            if j != i {
                assert(post.accounts[j] == s.accounts[j]);
            }
        }
        assert(account_ids_unique(post.accounts));
    } else {
        let created = AccountRecord { account_id, keys: seq![rec], last_active: now };
        assert(account_wf(created));
        assert forall|j: int| 0 <= j < post.accounts.len() implies
            account_wf(#[trigger] post.accounts[j]) by {
            if j < s.accounts.len() {
                assert(post.accounts[j] == s.accounts[j]);
            }
        }
        assert forall|p: int, q: int| 0 <= p < q < post.accounts.len() implies
            post.accounts[p].account_id != post.accounts[q].account_id by {
            if q == post.accounts.len() - 1 {
                assert(post.accounts[p] == s.accounts[p]);
            }
        }
    }
}

} // verus!
