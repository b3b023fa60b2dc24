//! The signature chain: the helper and the auditor sign the canonical bytes
//! of what they publish, with the signature primitives of Tink.

use crate::error::Error;
use tink_core::keyset::Handle;
use tink_core::TinkError;
use vstd::prelude::*;

verus! {

/// Registers the signature primitives with `tink_signature::init`, makes the
/// signing primitive of the keyset with `tink_signature::new_signer` and
/// calls its `sign`. The signature depends on fresh randomness and on the
/// key: nothing is known of it.
#[verifier::external_body]
fn keyset_sign(key: &Handle, data: &[u8]) -> (r: Result<Vec<u8>, TinkError>) {
    tink_signature::init();
    tink_signature::new_signer(key)?.sign(data)
}

/// Registers the signature primitives with `tink_signature::init`, makes the
/// verifying primitive of the keyset with `tink_signature::new_verifier` and
/// calls its `verify`. The verdict depends on the key: nothing is known of
/// it.
#[verifier::external_body]
fn keyset_verify(key: &Handle, signature: &[u8], data: &[u8]) -> (r: Result<(), TinkError>) {
    tink_signature::init();
    tink_signature::new_verifier(key)?.verify(signature, data)
}

/// What the library makes of Tink's answer to a signing: the signature as it
/// came, or, where Tink refused, the verdict that the key cannot sign.
pub fn settle_signing(answer: Result<Vec<u8>, TinkError>) -> (r: Result<Vec<u8>, Error>)
    ensures
        match answer {
            Ok(signature) => r.is_ok() && r.unwrap()@ == signature@,
            Err(_) => r == Err::<Vec<u8>, Error>(Error::InvalidParameter),
        },
{
    match answer {
        Ok(signature) => Ok(signature),
        Err(_) => Err(Error::InvalidParameter),
    }
}

/// What the library makes of Tink's answer to a verification: the signature
/// is accepted exactly where Tink did not refuse it.
pub fn settle_verdict(answer: Result<(), TinkError>) -> (accepted: bool)
    ensures
        accepted == answer.is_ok(),
{
    match answer {
        Ok(_) => true,
        Err(_) => false,
    }
}

/// Signs `data` with a private key. A key that cannot sign is refused. The
/// signature is Tink's answer, settled by `settle_signing`: it depends on
/// the key and on fresh randomness.
pub fn sign(key: &Handle, data: &[u8]) -> (r: Result<Vec<u8>, Error>)
    ensures
        r.is_err() ==> r == Err::<Vec<u8>, Error>(Error::InvalidParameter),
{
    settle_signing(keyset_sign(key, data))
}

/// Whether `signature` is accepted for `data` under a public key. The
/// verdict is Tink's, settled by `settle_verdict`: it depends on the key.
pub fn verify(key: &Handle, signature: &[u8], data: &[u8]) -> (accepted: bool) {
    settle_verdict(keyset_verify(key, signature, data))
}

} // verus!
