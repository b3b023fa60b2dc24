//! The outer envelope: hybrid public-key encryption with associated data,
//! by the hybrid primitives of Tink. An envelope for the helper is bound to
//! the period by the two bytes of the period identifier; an envelope for the
//! auditor is bound to nothing.

use crate::error::Error;
use tink_core::keyset::Handle;
use tink_core::TinkError;
use vstd::prelude::*;

verus! {

/// Tink's keyset handle, the key material of a party. The library hands it
/// on to Tink and never looks inside.
#[verifier::external_type_specification]
#[verifier::external_body]
pub struct ExHandle(Handle);

/// Tink's error. The library only tells it from success.
#[verifier::external_type_specification]
#[verifier::external_body]
pub struct ExTinkError(TinkError);

/// The associated data of an envelope for the helper: the period identifier,
/// most significant byte first.
pub open spec fn period_ad_of(id: u16) -> Seq<u8> {
    seq![(id / 256) as u8, (id % 256) as u8]
}

/// Registers the hybrid primitives with `tink_hybrid::init`, makes the
/// encrypting primitive of the keyset with `tink_hybrid::new_encrypt` and
/// calls its `encrypt`. The ciphertext depends on fresh randomness and on
/// the key: nothing is known of it.
#[verifier::external_body]
fn hybrid_encrypt(key: &Handle, plaintext: &[u8], context: &[u8]) -> (r: Result<
    Vec<u8>,
    TinkError,
>) {
    tink_hybrid::init();
    tink_hybrid::new_encrypt(key)?.encrypt(plaintext, context)
}

/// Registers the hybrid primitives with `tink_hybrid::init`, makes the
/// decrypting primitive of the keyset with `tink_hybrid::new_decrypt` and
/// calls its `decrypt`. The plaintext depends on the key: nothing is known
/// of it.
#[verifier::external_body]
fn hybrid_decrypt(key: &Handle, ciphertext: &[u8], context: &[u8]) -> (r: Result<
    Vec<u8>,
    TinkError,
>) {
    tink_hybrid::init();
    tink_hybrid::new_decrypt(key)?.decrypt(ciphertext, context)
}

/// The associated data that binds an envelope to a period.
pub fn period_ad(id: u16) -> (ad: [u8; 2])
    ensures
        ad@ == period_ad_of(id),
{
    let ad: [u8; 2] = [(id / 256) as u8, (id % 256) as u8];
    assert(ad@ =~= period_ad_of(id));
    ad
}

/// What the library makes of Tink's answer to an encryption: the envelope
/// as it came, or, where Tink refused, the verdict that the key cannot
/// encrypt.
pub fn settle_sealing(answer: Result<Vec<u8>, TinkError>) -> (r: Result<Vec<u8>, Error>)
    ensures
        match answer {
            Ok(envelope) => r.is_ok() && r.unwrap()@ == envelope@,
            Err(_) => r == Err::<Vec<u8>, Error>(Error::InvalidParameter),
        },
{
    match answer {
        Ok(envelope) => Ok(envelope),
        Err(_) => Err(Error::InvalidParameter),
    }
}

/// What the library makes of Tink's answer to a decryption: the plaintext as
/// it came, or, where Tink refused, the verdict that the envelope is not
/// authentic.
pub fn settle_opening(answer: Result<Vec<u8>, TinkError>) -> (r: Result<Vec<u8>, Error>)
    ensures
        match answer {
            Ok(plaintext) => r.is_ok() && r.unwrap()@ == plaintext@,
            Err(_) => r == Err::<Vec<u8>, Error>(Error::EnvelopeAuth),
        },
{
    match answer {
        Ok(plaintext) => Ok(plaintext),
        Err(_) => Err(Error::EnvelopeAuth),
    }
}

/// Seals a plaintext under a public key, bound to the associated data. A key
/// that cannot encrypt is refused. The envelope is Tink's answer, settled by
/// `settle_sealing`: it depends on the key and on fresh randomness.
pub fn seal(key: &Handle, plaintext: &[u8], context: &[u8]) -> (r: Result<Vec<u8>, Error>)
    ensures
        r.is_err() ==> r == Err::<Vec<u8>, Error>(Error::InvalidParameter),
{
    settle_sealing(hybrid_encrypt(key, plaintext, context))
}

/// Opens an envelope with a private key. An envelope that was sealed under
/// another key or bound to other associated data, or that was changed, is
/// refused. The plaintext is Tink's answer, settled by `settle_opening`: it
/// depends on the key.
pub fn open(key: &Handle, envelope: &[u8], context: &[u8]) -> (r: Result<Vec<u8>, Error>)
    ensures
        r.is_err() ==> r == Err::<Vec<u8>, Error>(Error::EnvelopeAuth),
{
    settle_opening(hybrid_decrypt(key, envelope, context))
}

/// Seals a plaintext for the helper, bound to the period: the associated
/// data that is handed to `seal` is `period_ad(id)`.
pub fn seal_for_helper(key: &Handle, plaintext: &[u8], id: u16) -> (r: Result<Vec<u8>, Error>)
    ensures
        r.is_err() ==> r == Err::<Vec<u8>, Error>(Error::InvalidParameter),
{
    let ad = period_ad(id);
    seal(key, plaintext, ad.as_slice())
}

/// Opens an envelope that was sealed for the helper in the given period: the
/// associated data that is handed to `open` is `period_ad(id)`.
pub fn open_as_helper(key: &Handle, envelope: &[u8], id: u16) -> (r: Result<Vec<u8>, Error>)
    ensures
        r.is_err() ==> r == Err::<Vec<u8>, Error>(Error::EnvelopeAuth),
{
    let ad = period_ad(id);
    open(key, envelope, ad.as_slice())
}

/// Seals a plaintext for the auditor: the associated data that is handed to
/// `seal` is empty.
pub fn seal_for_auditor(key: &Handle, plaintext: &[u8]) -> (r: Result<Vec<u8>, Error>)
    ensures
        r.is_err() ==> r == Err::<Vec<u8>, Error>(Error::InvalidParameter),
{
    let ad: [u8; 0] = [];
    seal(key, plaintext, ad.as_slice())
}

/// Opens an envelope that was sealed for the auditor: the associated data
/// that is handed to `open` is empty.
pub fn open_as_auditor(key: &Handle, envelope: &[u8]) -> (r: Result<Vec<u8>, Error>)
    ensures
        r.is_err() ==> r == Err::<Vec<u8>, Error>(Error::EnvelopeAuth),
{
    let ad: [u8; 0] = [];
    open(key, envelope, ad.as_slice())
}

} // verus!
