//! Trusted boundary to the asymmetric-signature verification primitive.

use vstd::prelude::*;

verus! {

/// Whether the ed25519 scheme accepts `signature` on `message` under
/// `public_key`. The outcome of `ed25519_dalek::VerifyingKey::verify` is a
/// function of these three byte strings alone; this name stands for that
/// outcome, and the library's contracts speak of the name rather than
/// restating the scheme. A key that does not decode to a curve point accepts
/// nothing, which the name absorbs.
pub uninterp spec fn ed25519_accepts(public_key: Seq<u8>, signature: Seq<u8>, message: Seq<u8>) -> bool;

/// Relies on ed25519-dalek: `VerifyingKey::from_bytes` decodes a 32-byte
/// public key, `Signature::from_bytes` reads a 64-byte signature, and
/// `Verifier::verify` accepts or rejects deterministically from the key,
/// signature and message bytes alone.
#[verifier::external_body]
pub(crate) fn ed25519_verify(public_key: &Vec<u8>, signature: &Vec<u8>, message: &Vec<u8>) -> (r: bool)
    requires
        public_key@.len() == crate::ED25519_PUBLIC_KEY_LEN,
        signature@.len() == crate::ED25519_SIGNATURE_LEN,
    ensures
        r == ed25519_accepts(public_key@, signature@, message@),
{
    let key_bytes: [u8; 32] = match public_key.as_slice().try_into() {
        Ok(b) => b,
        Err(_) => return false,
    };
    let sig_bytes: [u8; 64] = match signature.as_slice().try_into() {
        Ok(b) => b,
        Err(_) => return false,
    };
    let verifying_key = match ed25519_dalek::VerifyingKey::from_bytes(&key_bytes) {
        Ok(k) => k,
        Err(_) => return false,
    };
    let sig = ed25519_dalek::Signature::from_bytes(&sig_bytes);
    ed25519_dalek::Verifier::verify(&verifying_key, message.as_slice(), &sig).is_ok()
}

} // verus!
