//! The recipient in the first round: it encrypts its claim under the scheme
//! key, seals the ciphertexts in an envelope for the helper that is bound to
//! the period and, where tags are audited, wraps each envelope with one of
//! its secret tags in an envelope for the auditor.

use crate::codec::ctxts_1_to_bytes;
use crate::envelope::{seal_for_auditor, seal_for_helper};
use crate::error::Error;
use crate::scalar::Scalar;
use crate::tags::{join_tagged, SecretTag};
use crate::thbgn::Ciphertext1;
use crate::thelgamal::ctxt_to_bytes;
use crate::MAX_ENTITLEMENT;
use tink_core::keyset::Handle;
use vstd::prelude::*;

verus! {

/// Why a tagged claim is refused before anything is encrypted, if it is: a
/// claim bit that is neither 0 nor 1, then another number of secret tags
/// than `MAX_ENTITLEMENT`.
pub open spec fn tagged_claim_refusal(b: u64, tags: Seq<SecretTag>) -> Option<Error> {
    if b > 1 {
        Some(Error::InvalidParameter)
    } else if tags.len() != MAX_ENTITLEMENT {
        Some(Error::WrongTagCount)
    } else {
        None
    }
}

/// Holds a tagged claim against `tagged_claim_refusal`.
pub fn check_tagged_claim(b: u64, tags: &Vec<SecretTag>) -> (r: Result<(), Error>)
    ensures
        match r {
            Ok(()) => tagged_claim_refusal(b, tags@).is_none(),
            Err(e) => tagged_claim_refusal(b, tags@) == Some(e),
        },
{
    if b > 1 {
        Err(Error::InvalidParameter)
    } else if tags.len() != MAX_ENTITLEMENT {
        Err(Error::WrongTagCount)
    } else {
        Ok(())
    }
}

/// The payload of the two-level scheme: the encryption of the claim bit,
/// then that of the data field, sealed for the helper in the period. What is
/// handed to `seal_for_helper` is the encoding of the two ciphertexts, one
/// after the other; what comes back depends on the helper's key and on fresh
/// randomness, and fails only where that key cannot encrypt.
fn sealed_claim(
    b: u64,
    data: Scalar,
    pp: crate::thbgn::PublicParameters,
    id: u16,
    pk_1fe: crate::thbgn::PublicKey,
    pk_helper: &Handle,
) -> (r: Result<Vec<u8>, Error>)
    ensures
        r.is_err() ==> r.unwrap_err() == Error::InvalidParameter,
{
    let ctxt_bit = crate::thbgn::encrypt(pp, pk_1fe, Scalar::from_u64(b));
    let ctxt_data = crate::thbgn::encrypt(pp, pk_1fe, data);
    let mut ctxts: Vec<Ciphertext1> = Vec::new();
    ctxts.push(ctxt_bit);
    ctxts.push(ctxt_data);
    let payload = ctxts_1_to_bytes(&ctxts);
    seal_for_helper(pk_helper, payload.as_slice(), id)
}

/// The payload of the single-level scheme: the encryption of the claim bit,
/// sealed for the helper in the period. What is handed to `seal_for_helper`
/// is the encoding of the ciphertext; what comes back depends on the
/// helper's key and on fresh randomness, and fails only where that key
/// cannot encrypt.
fn sealed_bit(
    b: u64,
    pp: crate::thelgamal::PublicParameters,
    id: u16,
    pk: crate::thelgamal::PublicKey,
    pk_helper: &Handle,
) -> (r: Result<Vec<u8>, Error>)
    ensures
        r.is_err() ==> r.unwrap_err() == Error::InvalidParameter,
{
    let ctxt = crate::thelgamal::encrypt(pp, pk, Scalar::from_u64(b));
    let payload = ctxt_to_bytes(&ctxt);
    seal_for_helper(pk_helper, payload.as_slice(), id)
}

/// Wraps an envelope for the helper with a secret tag in an envelope for the
/// auditor. What is handed to `seal_for_auditor` is the tag followed by the
/// envelope; what comes back depends on the auditor's key and on fresh
/// randomness, and fails only where that key cannot encrypt.
fn tagged_for_auditor(tag: &SecretTag, envelope: &Vec<u8>, pk_auditor: &Handle) -> (r: Result<
    Vec<u8>,
    Error,
>)
    ensures
        r.is_err() ==> r.unwrap_err() == Error::InvalidParameter,
{
    let tagged = join_tagged(tag, envelope.as_slice());
    seal_for_auditor(pk_auditor, tagged.as_slice())
}

/// The recipient of the two-level scheme where no tags are audited: one
/// envelope for the helper with the encryptions of the claim bit and of the
/// data field.
pub fn recipient_1_thhe_2_hbc(
    b: u64,
    data: Scalar,
    pp: crate::thbgn::PublicParameters,
    id: u16,
    pk_1fe: crate::thbgn::PublicKey,
    pk_helper: &Handle,
) -> (r: Result<Vec<u8>, Error>)
    ensures
        b > 1 ==> r.is_err(),
        r.is_err() ==> r.unwrap_err() == Error::InvalidParameter,
{
    if b > 1 {
        return Err(Error::InvalidParameter);
    }
    sealed_claim(b, data, pp, id, pk_1fe, pk_helper)
}

/// The recipient of the two-level scheme where tags are audited. The first
/// envelope for the helper holds the claim; the others hold encryptions of
/// zero. Each is wrapped with one secret tag for the auditor. It returns the
/// envelopes for the helper and those for the auditor, `MAX_ENTITLEMENT` of
/// each and in the order of the tags.
pub fn recipient_1_thhe_2_mal(
    b: u64,
    data: Scalar,
    pp: crate::thbgn::PublicParameters,
    id: u16,
    secret_tags: &Vec<SecretTag>,
    pk_1fe: crate::thbgn::PublicKey,
    pk_helper: &Handle,
    pk_auditor: &Handle,
) -> (r: Result<(Vec<Vec<u8>>, Vec<Vec<u8>>), Error>)
    ensures
        match r {
            Ok((for_helper, for_auditor)) => tagged_claim_refusal(b, secret_tags@).is_none()
                && for_helper@.len() == MAX_ENTITLEMENT && for_auditor@.len() == MAX_ENTITLEMENT,
            Err(e) => match tagged_claim_refusal(b, secret_tags@) {
                Some(why) => e == why,
                None => e == Error::InvalidParameter,
            },
        },
{
    match check_tagged_claim(b, secret_tags) {
        Ok(()) => {},
        Err(e) => {
            return Err(e);
        },
    }
    let mut for_helper: Vec<Vec<u8>> = Vec::new();
    let mut for_auditor: Vec<Vec<u8>> = Vec::new();
    let mut k: usize = 0;
    while k < MAX_ENTITLEMENT
        invariant
            k <= MAX_ENTITLEMENT,
            tagged_claim_refusal(b, secret_tags@).is_none(),
            for_helper@.len() == k,
            for_auditor@.len() == k,
        decreases MAX_ENTITLEMENT - k,
    {
        let sealed = if k == 0 {
            sealed_claim(b, data, pp, id, pk_1fe, pk_helper)
        } else {
            sealed_claim(0, Scalar::from_u64(0), pp, id, pk_1fe, pk_helper)
        };
        let envelope = match sealed {
            Ok(envelope) => envelope,
            Err(e) => {
                return Err(e);
            },
        };
        let tagged = match tagged_for_auditor(&secret_tags[k], &envelope, pk_auditor) {
            Ok(tagged) => tagged,
            Err(e) => {
                return Err(e);
            },
        };
        for_helper.push(envelope);
        for_auditor.push(tagged);
        k = k + 1;
    }
    Ok((for_helper, for_auditor))
}

/// The recipient of the single-level scheme where no tags are audited: one
/// envelope for the helper with the encryption of the claim bit.
pub fn recipient_1_thhe_1_hbc(
    b: u64,
    pp: crate::thelgamal::PublicParameters,
    id: u16,
    pk: crate::thelgamal::PublicKey,
    pk_helper: &Handle,
) -> (r: Result<Vec<u8>, Error>)
    ensures
        b > 1 ==> r.is_err(),
        r.is_err() ==> r.unwrap_err() == Error::InvalidParameter,
{
    if b > 1 {
        return Err(Error::InvalidParameter);
    }
    sealed_bit(b, pp, id, pk, pk_helper)
}

/// The recipient of the single-level scheme where tags are audited. The
/// first envelope for the helper holds the claim; the others hold
/// encryptions of zero. Each is wrapped with one secret tag for the auditor.
/// It returns the envelopes for the helper and those for the auditor,
/// `MAX_ENTITLEMENT` of each and in the order of the tags.
pub fn recipient_1_thhe_1_mal(
    b: u64,
    pp: crate::thelgamal::PublicParameters,
    id: u16,
    secret_tags: &Vec<SecretTag>,
    pk: crate::thelgamal::PublicKey,
    pk_helper: &Handle,
    pk_auditor: &Handle,
) -> (r: Result<(Vec<Vec<u8>>, Vec<Vec<u8>>), Error>)
    ensures
        match r {
            Ok((for_helper, for_auditor)) => tagged_claim_refusal(b, secret_tags@).is_none()
                && for_helper@.len() == MAX_ENTITLEMENT && for_auditor@.len() == MAX_ENTITLEMENT,
            Err(e) => match tagged_claim_refusal(b, secret_tags@) {
                Some(why) => e == why,
                None => e == Error::InvalidParameter,
            },
        },
{
    match check_tagged_claim(b, secret_tags) {
        Ok(()) => {},
        Err(e) => {
            return Err(e);
        },
    }
    let mut for_helper: Vec<Vec<u8>> = Vec::new();
    let mut for_auditor: Vec<Vec<u8>> = Vec::new();
    let mut k: usize = 0;
    while k < MAX_ENTITLEMENT
        invariant
            k <= MAX_ENTITLEMENT,
            tagged_claim_refusal(b, secret_tags@).is_none(),
            for_helper@.len() == k,
            for_auditor@.len() == k,
        decreases MAX_ENTITLEMENT - k,
    {
        let sealed = if k == 0 {
            sealed_bit(b, pp, id, pk, pk_helper)
        } else {
            sealed_bit(0, pp, id, pk, pk_helper)
        };
        let envelope = match sealed {
            Ok(envelope) => envelope,
            Err(e) => {
                return Err(e);
            },
        };
        let tagged = match tagged_for_auditor(&secret_tags[k], &envelope, pk_auditor) {
            Ok(tagged) => tagged,
            Err(e) => {
                return Err(e);
            },
        };
        for_helper.push(envelope);
        for_auditor.push(tagged);
        k = k + 1;
    }
    Ok((for_helper, for_auditor))
}

} // verus!
