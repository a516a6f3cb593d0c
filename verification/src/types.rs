//! The stored key record and its mathematical image.

use vstd::prelude::*;

verus! {

/// Stored policy entry binding a public key to an optional expiration and an
/// optional multi-signature rule.
#[derive(Debug, PartialEq, Eq)]
pub struct KeyInfo {
    /// Opaque key identifier; 32 bytes for the supported signature scheme.
    pub public_key: Vec<u8>,
    /// Millisecond instant after which the key no longer authorizes.
    pub expiration_timestamp: Option<u64>,
    /// Whether authorization asks for a quorum of signature blobs.
    pub is_multi_sig: bool,
    /// Quorum size under the multi-signature rule; absent means 1.
    /// Never exceeds `crate::MAX_MULTI_SIG_THRESHOLD` once stored.
    pub multi_sig_threshold: Option<u32>,
}

/// Mathematical image of a [`KeyInfo`].
#[verifier::ext_equal]
pub struct KeyRecord {
    pub public_key: Seq<u8>,
    pub expiration_timestamp: Option<u64>,
    pub is_multi_sig: bool,
    pub multi_sig_threshold: Option<u32>,
}

impl View for KeyInfo {
    type V = KeyRecord;

    open spec fn view(&self) -> KeyRecord {
        KeyRecord {
            public_key: self.public_key@,
            expiration_timestamp: self.expiration_timestamp,
            is_multi_sig: self.is_multi_sig,
            multi_sig_threshold: self.multi_sig_threshold,
        }
    }
}

impl Clone for KeyInfo {
    fn clone(&self) -> (r: Self)
        ensures
            r@ == self@,
    {
        KeyInfo {
            public_key: crate::state::clone_bytes(&self.public_key),
            expiration_timestamp: self.expiration_timestamp,
            is_multi_sig: self.is_multi_sig,
            multi_sig_threshold: self.multi_sig_threshold,
        }
    }
}

} // verus!
