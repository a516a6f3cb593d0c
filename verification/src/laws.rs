//! The library's general laws, proved once and for all from the operation
//! contracts in [`crate::model`].

use vstd::prelude::*;

use crate::crypto::ed25519_accepts;
use crate::errors::AuthError;
use crate::model::{
    StoreModel, account_index, account_of, effective_threshold, has_account, has_key,
    key_decision, key_expired, register_post, register_result, remove_post, single_sig_decision,
    store_wf, threshold_too_large,
};
use crate::types::KeyRecord;

verus! {

/// A successful registration leaves the account holding the registered key.
pub proof fn lemma_register_result_has_key(s: StoreModel, account_id: Seq<u8>, rec: KeyRecord, now: u64)
    requires
        store_wf(s),
    ensures
        has_key(register_result(s, account_id, rec, now), account_id, rec.public_key),
{
    let post = register_result(s, account_id, rec, now);
    assert forall|p: int, q: int| 0 <= p < q < post.accounts.len() implies
        post.accounts[p].account_id != post.accounts[q].account_id by {
        if has_account(s, account_id) {
            let i = account_index(s, account_id);
            if p != i {
                assert(post.accounts[p] == s.accounts[p]);
            }
            if q != i {
                assert(post.accounts[q] == s.accounts[q]);
            }
        } else {
            if q == post.accounts.len() - 1 {
                assert(post.accounts[p] == s.accounts[p]);
            }
        }
    }
    if has_account(s, account_id) {
        let i = account_index(s, account_id);
        assert(post.accounts[i].account_id == account_id);
        assert(has_account(post, account_id));
        let u = account_index(post, account_id);
        assert(post.accounts[u].account_id == account_id);
        assert(u == i);
        let keys = post.accounts[i].keys;
        assert(keys[keys.len() - 1].public_key == rec.public_key);
    } else {
        let i = post.accounts.len() - 1;
        assert(post.accounts[i].account_id == account_id);
        assert(has_account(post, account_id));
        let u = account_index(post, account_id);
        assert(post.accounts[u].account_id == account_id);
        assert(u == i);
        let keys = post.accounts[i].keys;
        assert(keys[0].public_key == rec.public_key);
    }
}

/// Registering the same `(account, key)` twice: after a first registration
/// succeeds, a second one for the same key — with any policy whose threshold
/// is in bounds — is rejected with `KeyAlreadyExists`, and the store, in
/// particular the account's key count, is unaffected by the second call.
pub proof fn lemma_register_twice(
    s0: StoreModel,
    s1: StoreModel,
    s2: StoreModel,
    r1: Result<(), AuthError>,
    r2: Result<(), AuthError>,
    account_id: Seq<u8>,
    public_key: Seq<u8>,
    days1: Option<u32>,
    multi1: bool,
    threshold1: Option<u32>,
    now1: u64,
    days2: Option<u32>,
    multi2: bool,
    threshold2: Option<u32>,
    now2: u64,
)
    requires
        store_wf(s0),
        register_post(
            s0, s1, r1, account_id, account_id, public_key, days1, multi1, threshold1, now1,
        ),
        r1 == Ok::<(), AuthError>(()),
        !threshold_too_large(threshold2),
        register_post(
            s1, s2, r2, account_id, account_id, public_key, days2, multi2, threshold2, now2,
        ),
    ensures
        r2 == Err::<(), AuthError>(AuthError::KeyAlreadyExists),
        s2 == s1,
        account_of(s2, account_id).keys.len() == account_of(s1, account_id).keys.len(),
{
    let rec = crate::model::fresh_record(public_key, days1, multi1, threshold1, now1);
    assert(s1 == register_result(s0, account_id, rec, now1));
    lemma_register_result_has_key(s0, account_id, rec, now1);
}

/// Removing the last key of an account purges the account from the index in
/// the same step: afterwards the account is unregistered and a lookup of any
/// key under it finds nothing.
pub proof fn lemma_remove_last_key_purges(
    s0: StoreModel,
    s1: StoreModel,
    r: Result<(), AuthError>,
    account_id: Seq<u8>,
    public_key: Seq<u8>,
)
    requires
        store_wf(s0),
        has_key(s0, account_id, public_key),
        account_of(s0, account_id).keys.len() == 1,
        remove_post(s0, s1, r, account_id, account_id, public_key),
    ensures
        r == Ok::<(), AuthError>(()),
        !has_account(s1, account_id),
        forall|pk: Seq<u8>| !has_key(s1, account_id, pk),
{
    let i = account_index(s0, account_id);
    assert forall|w: int| 0 <= w < s1.accounts.len() implies
        (#[trigger] s1.accounts[w]).account_id != account_id by {
        let w0: int = if w < i { w } else { w + 1 };
        assert(s1.accounts[w] == s0.accounts[w0]);
        assert(s0.accounts[i].account_id == account_id);
    }
    assert(!has_account(s1, account_id));
}

/// The single-signature rule: a non-multi-signature record that has not
/// expired authorizes exactly when one signature blob of exactly 64 bytes is
/// presented, the record's key is exactly 32 bytes, and the scheme accepts
/// the blob on the payload under that key.
pub proof fn lemma_single_sig_rule(k: KeyRecord, sigs: Seq<Seq<u8>>, payload: Seq<u8>, now: u64)
    requires
        !k.is_multi_sig,
        !key_expired(k, now),
    ensures
        key_decision(k, sigs, payload, now) <==> {
            &&& sigs.len() == 1
            &&& sigs[0].len() == crate::ED25519_SIGNATURE_LEN
            &&& k.public_key.len() == crate::ED25519_PUBLIC_KEY_LEN
            &&& ed25519_accepts(k.public_key, sigs[0], payload)
        },
{
}

/// The multi-signature rule: a multi-signature record with threshold `T`
/// (1 when absent) that has not expired authorizes exactly when at least `T`
/// signature blobs are presented — regardless of their content, which is
/// delegated to an upstream co-signer.
pub proof fn lemma_multi_sig_rule(k: KeyRecord, sigs: Seq<Seq<u8>>, payload: Seq<u8>, now: u64)
    requires
        k.is_multi_sig,
        !key_expired(k, now),
    ensures
        sigs.len() < effective_threshold(k) ==> !key_decision(k, sigs, payload, now),
        sigs.len() >= effective_threshold(k) ==> key_decision(k, sigs, payload, now),
{
}

/// The expiration rule: a record with expiration `e` never authorizes once
/// `now > e`, and while `now <= e` the decision is governed by the
/// signature/threshold rule of its kind alone.
pub proof fn lemma_expiration_rule(
    k: KeyRecord,
    sigs: Seq<Seq<u8>>,
    payload: Seq<u8>,
    now: u64,
    e: u64,
)
    requires
        k.expiration_timestamp == Some(e),
    ensures
        now > e ==> !key_decision(k, sigs, payload, now),
        now <= e ==> key_decision(k, sigs, payload, now) == (if k.is_multi_sig {
            sigs.len() >= effective_threshold(k)
        } else {
            single_sig_decision(k, sigs, payload)
        }),
{
}

} // verus!
