//! Key-store lifecycle: registration, removal, rotation, expiration
//! extension, sweeps, reaping, pagination and events.

use auth_keys::errors::AuthError;
use auth_keys::events::AuthEvent;
use auth_keys::state::AuthContractState;

const DAY_MS: u64 = 86_400_000;
const YEAR_MS: u64 = 31_536_000_000;

fn acct(name: &str) -> Vec<u8> {
    name.as_bytes().to_vec()
}

fn key(tag: u8) -> Vec<u8> {
    vec![tag; 32]
}

#[test]
fn register_creates_account_and_key() {
    let mut store = AuthContractState::new();
    let alice = acct("alice");
    assert_eq!(
        store.register_key(&alice, &alice, key(1), None, false, None, 1_000),
        Ok(())
    );
    let info = store.get_key_info(&alice, &key(1)).expect("key must be stored");
    assert_eq!(info.public_key, key(1));
    assert_eq!(info.expiration_timestamp, None);
    assert!(!info.is_multi_sig);
    assert_eq!(info.multi_sig_threshold, None);
}

#[test]
fn register_computes_expiration_from_days() {
    let mut store = AuthContractState::new();
    let alice = acct("alice");
    let now: u64 = 5_000;
    store
        .register_key(&alice, &alice, key(1), Some(3), false, None, now)
        .unwrap();
    assert_eq!(
        store.check_key_expiration(&alice, &key(1)),
        Some(now + 3 * DAY_MS)
    );
}

#[test]
fn register_twice_yields_key_already_exists() {
    let mut store = AuthContractState::new();
    let alice = acct("alice");
    store
        .register_key(&alice, &alice, key(1), None, false, None, 1_000)
        .unwrap();
    assert_eq!(
        store.register_key(&alice, &alice, key(1), Some(7), true, Some(2), 2_000),
        Err(AuthError::KeyAlreadyExists)
    );
    assert_eq!(store.get_keys(&alice, 100, 0).len(), 1);
}

#[test]
fn register_for_someone_else_is_unauthorized() {
    let mut store = AuthContractState::new();
    assert_eq!(
        store.register_key(&acct("mallory"), &acct("alice"), key(1), None, false, None, 0),
        Err(AuthError::Unauthorized)
    );
    assert!(store.get_key_info(&acct("alice"), &key(1)).is_none());
}

#[test]
fn register_rejects_threshold_over_ten() {
    let mut store = AuthContractState::new();
    let alice = acct("alice");
    assert_eq!(
        store.register_key(&alice, &alice, key(1), None, true, Some(11), 0),
        Err(AuthError::InvalidThreshold)
    );
    assert_eq!(
        store.register_key(&alice, &alice, key(1), None, true, Some(10), 0),
        Ok(())
    );
}

#[test]
fn remove_missing_key_yields_key_not_found() {
    let mut store = AuthContractState::new();
    let alice = acct("alice");
    assert_eq!(
        store.remove_key(&alice, &alice, &key(1)),
        Err(AuthError::KeyNotFound)
    );
    store
        .register_key(&alice, &alice, key(1), None, false, None, 0)
        .unwrap();
    assert_eq!(
        store.remove_key(&alice, &alice, &key(2)),
        Err(AuthError::KeyNotFound)
    );
    assert_eq!(
        store.remove_key(&acct("mallory"), &alice, &key(1)),
        Err(AuthError::Unauthorized)
    );
}

#[test]
fn removing_last_key_purges_account() {
    let mut store = AuthContractState::new();
    let alice = acct("alice");
    store
        .register_key(&alice, &alice, key(1), None, false, None, 0)
        .unwrap();
    assert_eq!(store.remove_key(&alice, &alice, &key(1)), Ok(()));
    assert!(store.get_key_info(&alice, &key(1)).is_none());
    assert!(store.get_keys(&alice, 100, 0).is_empty());
    // the index entry is gone too: the account never shows up in a scan
    assert!(store.get_inactive_accounts(100, 0, u64::MAX).is_empty());
}

#[test]
fn removing_one_of_two_keys_keeps_account() {
    let mut store = AuthContractState::new();
    let alice = acct("alice");
    store
        .register_key(&alice, &alice, key(1), None, false, None, 0)
        .unwrap();
    store
        .register_key(&alice, &alice, key(2), None, false, None, 0)
        .unwrap();
    store.remove_key(&alice, &alice, &key(1)).unwrap();
    assert!(store.get_key_info(&alice, &key(1)).is_none());
    assert!(store.get_key_info(&alice, &key(2)).is_some());
}

#[test]
fn rotate_swaps_key_and_policy() {
    let mut store = AuthContractState::new();
    let alice = acct("alice");
    store
        .register_key(&alice, &alice, key(1), None, false, None, 0)
        .unwrap();
    let now: u64 = 9_000;
    assert_eq!(
        store.rotate_key(&alice, &alice, &key(1), key(2), Some(2), true, Some(4), now),
        Ok(())
    );
    assert!(store.get_key_info(&alice, &key(1)).is_none());
    let info = store.get_key_info(&alice, &key(2)).expect("rotated key");
    assert_eq!(info.expiration_timestamp, Some(now + 2 * DAY_MS));
    assert!(info.is_multi_sig);
    assert_eq!(info.multi_sig_threshold, Some(4));
}

#[test]
fn rotate_errors() {
    let mut store = AuthContractState::new();
    let alice = acct("alice");
    store
        .register_key(&alice, &alice, key(1), None, false, None, 0)
        .unwrap();
    store
        .register_key(&alice, &alice, key(2), None, false, None, 0)
        .unwrap();
    assert_eq!(
        store.rotate_key(&acct("mallory"), &alice, &key(1), key(3), None, false, None, 0),
        Err(AuthError::Unauthorized)
    );
    assert_eq!(
        store.rotate_key(&alice, &alice, &key(9), key(3), None, false, None, 0),
        Err(AuthError::KeyNotFound)
    );
    assert_eq!(
        store.rotate_key(&alice, &alice, &key(1), key(2), None, false, None, 0),
        Err(AuthError::KeyAlreadyExists)
    );
    assert_eq!(
        store.rotate_key(&alice, &alice, &key(1), key(3), None, true, Some(11), 0),
        Err(AuthError::InvalidThreshold)
    );
}

#[test]
fn extend_resets_expiration_absolutely() {
    let mut store = AuthContractState::new();
    let alice = acct("alice");
    store
        .register_key(&alice, &alice, key(1), Some(10), false, None, 0)
        .unwrap();
    let later: u64 = 4 * DAY_MS;
    assert_eq!(
        store.extend_key_expiration(&alice, &alice, &key(1), 1, later),
        Ok(())
    );
    // absolute reset: now + 1 day, not the prior 10 days plus 1
    assert_eq!(
        store.check_key_expiration(&alice, &key(1)),
        Some(later + DAY_MS)
    );
    assert_eq!(
        store.extend_key_expiration(&alice, &alice, &key(2), 1, later),
        Err(AuthError::KeyNotFound)
    );
    assert_eq!(
        store.extend_key_expiration(&acct("mallory"), &alice, &key(1), 1, later),
        Err(AuthError::Unauthorized)
    );
}

#[test]
fn sweep_removes_only_expired_keys() {
    let mut store = AuthContractState::new();
    let alice = acct("alice");
    store
        .register_key(&alice, &alice, key(1), Some(1), false, None, 0)
        .unwrap();
    store
        .register_key(&alice, &alice, key(2), Some(5), false, None, 0)
        .unwrap();
    store
        .register_key(&alice, &alice, key(3), None, false, None, 0)
        .unwrap();
    let now: u64 = 2 * DAY_MS;
    assert_eq!(store.remove_expired_keys(&alice, now), Ok(()));
    assert!(store.get_key_info(&alice, &key(1)).is_none());
    assert!(store.get_key_info(&alice, &key(2)).is_some());
    assert!(store.get_key_info(&alice, &key(3)).is_some());
}

#[test]
fn sweep_purges_account_when_everything_expired() {
    let mut store = AuthContractState::new();
    let alice = acct("alice");
    store
        .register_key(&alice, &alice, key(1), Some(1), false, None, 0)
        .unwrap();
    assert_eq!(store.remove_expired_keys(&alice, 2 * DAY_MS), Ok(()));
    assert!(store.get_key_info(&alice, &key(1)).is_none());
    assert!(store.get_keys(&alice, 100, 0).is_empty());
    assert_eq!(
        store.remove_expired_keys(&alice, 2 * DAY_MS),
        Err(AuthError::KeyNotFound)
    );
}

#[test]
fn sweep_keeps_key_expiring_exactly_now() {
    let mut store = AuthContractState::new();
    let alice = acct("alice");
    store
        .register_key(&alice, &alice, key(1), Some(1), false, None, 0)
        .unwrap();
    // expiration == now is not yet expired
    assert_eq!(store.remove_expired_keys(&alice, DAY_MS), Ok(()));
    assert!(store.get_key_info(&alice, &key(1)).is_some());
}

#[test]
fn reap_respects_inactivity_window() {
    let mut store = AuthContractState::new();
    let alice = acct("alice");
    store
        .register_key(&alice, &alice, key(1), None, false, None, 0)
        .unwrap();
    // day 300 since last activity: still inside the one-year window
    assert_eq!(
        store.remove_inactive_accounts(&alice, 300 * DAY_MS),
        Err(AuthError::AccountStillActive)
    );
    assert!(store.get_key_info(&alice, &key(1)).is_some());
    // day 400: outside the window, everything goes
    assert_eq!(store.remove_inactive_accounts(&alice, 400 * DAY_MS), Ok(()));
    assert!(store.get_key_info(&alice, &key(1)).is_none());
    assert!(store.get_keys(&alice, 100, 0).is_empty());
    assert!(store.get_inactive_accounts(100, 0, u64::MAX).is_empty());
    assert_eq!(
        store.remove_inactive_accounts(&alice, 400 * DAY_MS),
        Err(AuthError::KeyNotFound)
    );
}

#[test]
fn reap_boundary_is_strict() {
    let mut store = AuthContractState::new();
    let alice = acct("alice");
    store
        .register_key(&alice, &alice, key(1), None, false, None, 1_000)
        .unwrap();
    assert_eq!(
        store.remove_inactive_accounts(&alice, 1_000 + YEAR_MS),
        Err(AuthError::AccountStillActive)
    );
    assert_eq!(store.remove_inactive_accounts(&alice, 1_001 + YEAR_MS), Ok(()));
}

#[test]
fn inactive_accounts_scan_filters_and_limits() {
    let mut store = AuthContractState::new();
    let names = ["a", "b", "c", "d"];
    for (pos, name) in names.iter().enumerate() {
        let id = acct(name);
        // accounts "a" and "c" were last active at instant 0; "b" and "d" later
        let now: u64 = if pos % 2 == 0 { 0 } else { YEAR_MS };
        store
            .register_key(&id, &id, key(1), None, false, None, now)
            .unwrap();
    }
    let now = YEAR_MS + 1;
    let inactive = store.get_inactive_accounts(100, 0, now);
    assert_eq!(inactive, vec![acct("a"), acct("c")]);
    // a limit of 1 scans only the first index position
    assert_eq!(store.get_inactive_accounts(1, 0, now), vec![acct("a")]);
    // an offset skips positions, not matches
    assert_eq!(store.get_inactive_accounts(100, 1, now), vec![acct("c")]);
    assert_eq!(store.get_inactive_accounts(100, 4, now), Vec::<Vec<u8>>::new());
    // every reported account satisfies the window strictly
    assert!(store.get_inactive_accounts(100, 0, YEAR_MS).is_empty());
}

#[test]
fn get_keys_paginates_in_insertion_order() {
    let mut store = AuthContractState::new();
    let alice = acct("alice");
    for tag in 1..=5u8 {
        store
            .register_key(&alice, &alice, key(tag), None, false, None, 0)
            .unwrap();
    }
    let page = store.get_keys(&alice, 2, 1);
    assert_eq!(page.len(), 2);
    assert_eq!(page[0].public_key, key(2));
    assert_eq!(page[1].public_key, key(3));
    assert!(store.get_keys(&alice, 3, 9).is_empty());
    assert!(store.get_keys(&acct("nobody"), 10, 0).is_empty());
}

#[test]
fn events_are_logged_in_order_and_drained() {
    let mut store = AuthContractState::new();
    let alice = acct("alice");
    store
        .register_key(&alice, &alice, key(1), None, false, None, 0)
        .unwrap();
    store
        .rotate_key(&alice, &alice, &key(1), key(2), None, false, None, 5)
        .unwrap();
    store.extend_key_expiration(&alice, &alice, &key(2), 1, 10).unwrap();
    store.remove_key(&alice, &alice, &key(2)).unwrap();
    let events = store.drain_events();
    assert_eq!(
        events,
        vec![
            AuthEvent::KeyRegistered { account_id: acct("alice"), public_key: key(1) },
            AuthEvent::KeyRotated {
                account_id: acct("alice"),
                old_public_key: key(1),
                new_public_key: key(2),
            },
            AuthEvent::KeyExpirationExtended {
                account_id: acct("alice"),
                public_key: key(2),
                new_expiration: 10 + DAY_MS,
            },
            AuthEvent::KeyRemoved { account_id: acct("alice"), public_key: key(2) },
        ]
    );
    assert!(store.drain_events().is_empty());
}

#[test]
fn sweep_logs_one_removal_per_expired_key() {
    let mut store = AuthContractState::new();
    let alice = acct("alice");
    store
        .register_key(&alice, &alice, key(1), Some(1), false, None, 0)
        .unwrap();
    store
        .register_key(&alice, &alice, key(2), Some(1), false, None, 0)
        .unwrap();
    store.drain_events();
    store.remove_expired_keys(&alice, 2 * DAY_MS).unwrap();
    let events = store.drain_events();
    assert_eq!(
        events,
        vec![
            AuthEvent::KeyRemoved { account_id: acct("alice"), public_key: key(1) },
            AuthEvent::KeyRemoved { account_id: acct("alice"), public_key: key(2) },
        ]
    );
}

#[test]
fn failed_operations_log_nothing() {
    let mut store = AuthContractState::new();
    let alice = acct("alice");
    store
        .register_key(&alice, &alice, key(1), None, false, None, 0)
        .unwrap();
    store.drain_events();
    let _ = store.register_key(&alice, &alice, key(1), None, false, None, 0);
    let _ = store.remove_key(&acct("mallory"), &alice, &key(1));
    let _ = store.remove_inactive_accounts(&alice, 0);
    assert!(store.drain_events().is_empty());
}
