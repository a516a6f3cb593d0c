//! The authorization decision: single-signature verification, the
//! multi-signature quorum rule, expiration, soft failure, and the
//! last-active side effect.

use auth_keys::state::AuthContractState;
use ed25519_dalek::{Signer, SigningKey};

const DAY_MS: u64 = 86_400_000;
const YEAR_MS: u64 = 31_536_000_000;

fn acct(name: &str) -> Vec<u8> {
    name.as_bytes().to_vec()
}

fn keypair(seed: u8) -> (Vec<u8>, SigningKey) {
    let signing = SigningKey::from_bytes(&[seed; 32]);
    (signing.verifying_key().to_bytes().to_vec(), signing)
}

fn sign(signing: &SigningKey, message: &[u8]) -> Vec<u8> {
    signing.sign(message).to_bytes().to_vec()
}

#[test]
fn valid_signature_authorizes_and_garbage_does_not() {
    let mut store = AuthContractState::new();
    let alice = acct("alice");
    let (public_key, signing) = keypair(7);
    store
        .register_key(&alice, &alice, public_key.clone(), None, false, None, 0)
        .unwrap();
    let payload = b"transfer 5 to bob".to_vec();
    let valid = sign(&signing, &payload);
    assert!(store.is_authorized(&alice, &public_key, Some(vec![valid]), &payload, 10));
    let garbage = vec![0xAAu8; 64];
    assert!(!store.is_authorized(&alice, &public_key, Some(vec![garbage]), &payload, 10));
}

#[test]
fn signature_over_other_payload_is_rejected() {
    let mut store = AuthContractState::new();
    let alice = acct("alice");
    let (public_key, signing) = keypair(9);
    store
        .register_key(&alice, &alice, public_key.clone(), None, false, None, 0)
        .unwrap();
    let payload = b"pay bob".to_vec();
    let other = sign(&signing, b"pay mallory");
    assert!(!store.is_authorized(&alice, &public_key, Some(vec![other]), &payload, 10));
}

#[test]
fn single_sig_requires_exactly_one_well_formed_blob() {
    let mut store = AuthContractState::new();
    let alice = acct("alice");
    let (public_key, signing) = keypair(3);
    store
        .register_key(&alice, &alice, public_key.clone(), None, false, None, 0)
        .unwrap();
    let payload = b"message".to_vec();
    let valid = sign(&signing, &payload);
    // no list and an empty list both fail
    assert!(!store.is_authorized(&alice, &public_key, None, &payload, 1));
    assert!(!store.is_authorized(&alice, &public_key, Some(vec![]), &payload, 1));
    // two blobs fail even when one of them is valid
    assert!(!store.is_authorized(
        &alice,
        &public_key,
        Some(vec![valid.clone(), valid.clone()]),
        &payload,
        1,
    ));
    // a truncated blob fails on length alone
    let short = valid[..63].to_vec();
    assert!(!store.is_authorized(&alice, &public_key, Some(vec![short]), &payload, 1));
    // the right single blob passes
    assert!(store.is_authorized(&alice, &public_key, Some(vec![valid]), &payload, 1));
}

#[test]
fn wrong_length_registered_key_never_authorizes() {
    let mut store = AuthContractState::new();
    let alice = acct("alice");
    let stub = vec![1u8; 16];
    store
        .register_key(&alice, &alice, stub.clone(), None, false, None, 0)
        .unwrap();
    let payload = b"message".to_vec();
    assert!(!store.is_authorized(&alice, &stub, Some(vec![vec![0u8; 64]]), &payload, 1));
}

#[test]
fn multi_sig_counts_blobs_against_threshold() {
    let mut store = AuthContractState::new();
    let alice = acct("alice");
    let key2 = vec![2u8; 32];
    store
        .register_key(&alice, &alice, key2.clone(), None, true, Some(3), 0)
        .unwrap();
    let payload = b"spend".to_vec();
    let blob = |tag: u8| vec![tag; 64];
    // fewer than the threshold: refused
    assert!(!store.is_authorized(
        &alice,
        &key2,
        Some(vec![blob(1), blob(2)]),
        &payload,
        1,
    ));
    // at least the threshold: granted regardless of blob content
    assert!(store.is_authorized(
        &alice,
        &key2,
        Some(vec![blob(1), blob(2), blob(3)]),
        &payload,
        1,
    ));
    assert!(!store.is_authorized(&alice, &key2, None, &payload, 1));
}

#[test]
fn multi_sig_threshold_defaults_to_one() {
    let mut store = AuthContractState::new();
    let alice = acct("alice");
    let key2 = vec![2u8; 32];
    store
        .register_key(&alice, &alice, key2.clone(), None, true, None, 0)
        .unwrap();
    let payload = b"spend".to_vec();
    assert!(!store.is_authorized(&alice, &key2, Some(vec![]), &payload, 1));
    assert!(store.is_authorized(&alice, &key2, Some(vec![vec![9u8; 1]]), &payload, 1));
}

#[test]
fn expired_key_never_authorizes() {
    let mut store = AuthContractState::new();
    let alice = acct("alice");
    let (public_key, signing) = keypair(5);
    store
        .register_key(&alice, &alice, public_key.clone(), Some(1), false, None, 0)
        .unwrap();
    let payload = b"message".to_vec();
    let valid = sign(&signing, &payload);
    // now == expiration: still governed by the signature rule
    assert!(store.is_authorized(&alice, &public_key, Some(vec![valid.clone()]), &payload, DAY_MS));
    // now > expiration: refused, softly
    assert!(!store.is_authorized(
        &alice,
        &public_key,
        Some(vec![valid]),
        &payload,
        DAY_MS + 1,
    ));
}

#[test]
fn unknown_account_or_key_fails_softly() {
    let mut store = AuthContractState::new();
    let alice = acct("alice");
    let payload = b"message".to_vec();
    assert!(!store.is_authorized(&alice, &vec![1u8; 32], Some(vec![vec![0u8; 64]]), &payload, 1));
    store
        .register_key(&alice, &alice, vec![1u8; 32], None, true, Some(1), 0)
        .unwrap();
    assert!(!store.is_authorized(&alice, &vec![2u8; 32], Some(vec![vec![0u8; 64]]), &payload, 1));
}

#[test]
fn successful_authorization_refreshes_activity() {
    let mut store = AuthContractState::new();
    let alice = acct("alice");
    let key2 = vec![2u8; 32];
    store
        .register_key(&alice, &alice, key2.clone(), None, true, Some(1), 0)
        .unwrap();
    let payload = b"ping".to_vec();
    // a successful check at half a year keeps the account active at one year
    assert!(store.is_authorized(&alice, &key2, Some(vec![vec![0u8; 64]]), &payload, YEAR_MS / 2));
    assert!(store.get_inactive_accounts(100, 0, YEAR_MS + 1).is_empty());
    // a failed check leaves the old instant in place
    let mut idle = AuthContractState::new();
    idle.register_key(&alice, &alice, key2.clone(), None, true, Some(5), 0).unwrap();
    assert!(!idle.is_authorized(&alice, &key2, None, &payload, YEAR_MS / 2));
    assert_eq!(idle.get_inactive_accounts(100, 0, YEAR_MS + 1), vec![alice.clone()]);
}
