//! The committee: each member verifies the helper's signature over what the
//! helper published and answers with partial decryptions under its own key
//! share, slot by slot.

use crate::codec::ctxts_t_to_bytes;
use crate::error::Error;
use crate::g1::g1_scale;
use crate::gt::gt_scale;
use crate::signature::verify;
use crate::thbgn::{
    partial_decrypt, partial_decrypt2, CiphertextT, IntermediateDec, PartialDecryption,
    PartialDecryption2, PublicParameters, SecretKeyShare,
};
use crate::thelgamal::{ctxt_to_bytes, Ciphertext};
use tink_core::keyset::Handle;
use vstd::prelude::*;

verus! {

/// Whether `pdec` is the first-round partial decryption of `ct` under `sk`.
pub open spec fn is_partial(pdec: PartialDecryption, sk: SecretKeyShare, ct: CiphertextT) -> bool {
    pdec.0 == sk.0 && pdec.1@ == gt_scale(ct.0.0@, sk.1@) && pdec.2@ == gt_scale(ct.0.1@, sk.1@)
        && pdec.3@ == gt_scale(ct.0.2@, sk.2@) && pdec.4 == ct.0.3
}

/// Whether `pdec` is the second-round partial decryption of `idec` under
/// `sk`.
pub open spec fn is_partial2(
    pdec: PartialDecryption2,
    sk: SecretKeyShare,
    idec: IntermediateDec,
) -> bool {
    pdec.0 == sk.0 && pdec.1@ == gt_scale(idec.0@, sk.2@) && pdec.2 == idec.1
}

/// Whether `out` holds, slot by slot, the first-round partial decryptions of
/// `rows` under `sk`.
pub open spec fn partials_of(
    out: Seq<Vec<PartialDecryption>>,
    sk: SecretKeyShare,
    rows: Seq<Vec<CiphertextT>>,
) -> bool {
    out.len() == rows.len() && forall|j: int|
        0 <= j < out.len() ==> (#[trigger] out[j])@.len() == rows[j]@.len() && forall|k: int|
            0 <= k < out[j]@.len() ==> is_partial(#[trigger] out[j]@[k], sk, rows[j]@[k])
}

/// Whether `out` holds, slot by slot, the second-round partial decryptions
/// of `idecs` under `sk`.
pub open spec fn partials2_of(
    out: Seq<Vec<PartialDecryption2>>,
    sk: SecretKeyShare,
    idecs: Seq<Vec<IntermediateDec>>,
) -> bool {
    out.len() == idecs.len() && forall|j: int|
        0 <= j < out.len() ==> (#[trigger] out[j])@.len() == idecs[j]@.len() && forall|k: int|
            0 <= k < out[j]@.len() ==> is_partial2(#[trigger] out[j]@[k], sk, idecs[j]@[k])
}

/// The first-round partial decryptions of an array of target-level
/// ciphertexts under one key share, slot by slot.
pub fn partial_decrypt_all(
    pp: PublicParameters,
    sk: SecretKeyShare,
    rows: &Vec<Vec<CiphertextT>>,
) -> (out: Vec<Vec<PartialDecryption>>)
    ensures
        partials_of(out@, sk, rows@),
{
    let n: usize = rows.len();
    let mut out: Vec<Vec<PartialDecryption>> = Vec::new();
    let mut j: usize = 0;
    while j < n
        invariant
            j <= n,
            n == rows@.len(),
            out@.len() == j,
            forall|a: int|
                0 <= a < j ==> (#[trigger] out@[a])@.len() == rows@[a]@.len() && forall|b: int|
                    0 <= b < out@[a]@.len() ==> is_partial(
                        #[trigger] out@[a]@[b],
                        sk,
                        rows@[a]@[b],
                    ),
        decreases n - j,
    {
        let m: usize = rows[j].len();
        let mut row: Vec<PartialDecryption> = Vec::new();
        let mut k: usize = 0;
        while k < m
            invariant
                k <= m,
                j < n,
                n == rows@.len(),
                m == rows@[j as int]@.len(),
                row@.len() == k,
                forall|b: int|
                    0 <= b < k ==> is_partial(#[trigger] row@[b], sk, rows@[j as int]@[b]),
            decreases m - k,
        {
            row.push(partial_decrypt(pp, sk, rows[j][k]));
            k = k + 1;
        }
        out.push(row);
        j = j + 1;
    }
    out
}

/// The second-round partial decryptions of an array of intermediate values
/// under one key share, slot by slot.
pub fn partial_decrypt2_all(
    pp: PublicParameters,
    sk: SecretKeyShare,
    idecs: &Vec<Vec<IntermediateDec>>,
) -> (out: Vec<Vec<PartialDecryption2>>)
    ensures
        partials2_of(out@, sk, idecs@),
{
    let n: usize = idecs.len();
    let mut out: Vec<Vec<PartialDecryption2>> = Vec::new();
    let mut j: usize = 0;
    while j < n
        invariant
            j <= n,
            n == idecs@.len(),
            out@.len() == j,
            forall|a: int|
                0 <= a < j ==> (#[trigger] out@[a])@.len() == idecs@[a]@.len() && forall|b: int|
                    0 <= b < out@[a]@.len() ==> is_partial2(
                        #[trigger] out@[a]@[b],
                        sk,
                        idecs@[a]@[b],
                    ),
        decreases n - j,
    {
        let m: usize = idecs[j].len();
        let mut row: Vec<PartialDecryption2> = Vec::new();
        let mut k: usize = 0;
        while k < m
            invariant
                k <= m,
                j < n,
                n == idecs@.len(),
                m == idecs@[j as int]@.len(),
                row@.len() == k,
                forall|b: int|
                    0 <= b < k ==> is_partial2(#[trigger] row@[b], sk, idecs@[j as int]@[b]),
            decreases m - k,
        {
            row.push(partial_decrypt2(pp, sk, idecs[j][k]));
            k = k + 1;
        }
        out.push(row);
        j = j + 1;
    }
    out
}

/// A committee member of the two-level scheme in the first round: verifies
/// the helper's signature over the canonical bytes of the published array
/// and, where it is accepted, partially decrypts every slot.
pub fn recipient_2(
    pp: PublicParameters,
    ctxts_out: &Vec<Vec<CiphertextT>>,
    ctxts_out_sig: &Vec<u8>,
    sk: SecretKeyShare,
    vk: &Handle,
) -> (r: Result<Vec<Vec<PartialDecryption>>, Error>)
    ensures
        match r {
            Ok(out) => partials_of(out@, sk, ctxts_out@),
            Err(e) => e == Error::HelperSignatureInvalid,
        },
{
    let data = ctxts_t_to_bytes(ctxts_out);
    decide_round_1(pp, ctxts_out, sk, verify(vk, ctxts_out_sig.as_slice(), data.as_slice()))
}

/// What a committee member of the two-level scheme does with the verdict on
/// the helper's signature: it aborts where the signature was not accepted,
/// and partially decrypts every slot where it was.
pub fn decide_round_1(
    pp: PublicParameters,
    ctxts_out: &Vec<Vec<CiphertextT>>,
    sk: SecretKeyShare,
    accepted: bool,
) -> (r: Result<Vec<Vec<PartialDecryption>>, Error>)
    ensures
        match r {
            Ok(out) => accepted && partials_of(out@, sk, ctxts_out@),
            Err(e) => !accepted && e == Error::HelperSignatureInvalid,
        },
{
    if !accepted {
        return Err(Error::HelperSignatureInvalid);
    }
    Ok(partial_decrypt_all(pp, sk, ctxts_out))
}

/// What a committee member of the single-level scheme does with the verdict
/// on the helper's signature: it aborts where the signature was not
/// accepted, and partially decrypts the sum where it was.
pub fn decide_single_round(
    pp: crate::thelgamal::PublicParameters,
    ctxt_out: Ciphertext,
    sk: crate::thelgamal::SecretKeyShare,
    accepted: bool,
) -> (r: Result<crate::thelgamal::PartialDecryption, Error>)
    ensures
        match r {
            Ok(pdec) => accepted && pdec.0 == sk.0 && pdec.1@ == g1_scale(ctxt_out.1@, sk.1@),
            Err(e) => !accepted && e == Error::HelperSignatureInvalid,
        },
{
    if !accepted {
        return Err(Error::HelperSignatureInvalid);
    }
    Ok(crate::thelgamal::partial_decrypt(pp, sk, ctxt_out))
}

/// A committee member of the single-level scheme: verifies the helper's
/// signature over the encoding of the published sum and, where it is
/// accepted, partially decrypts the sum.
pub fn recipient_2_single(
    pp: crate::thelgamal::PublicParameters,
    ctxt_out: Ciphertext,
    ctxt_out_sig: &Vec<u8>,
    sk: crate::thelgamal::SecretKeyShare,
    vk: &Handle,
) -> (r: Result<crate::thelgamal::PartialDecryption, Error>)
    ensures
        match r {
            Ok(pdec) => pdec.0 == sk.0 && pdec.1@ == g1_scale(ctxt_out.1@, sk.1@),
            Err(e) => e == Error::HelperSignatureInvalid,
        },
{
    let data = ctxt_to_bytes(&ctxt_out);
    decide_single_round(pp, ctxt_out, sk, verify(vk, ctxt_out_sig.as_slice(), data.as_slice()))
}

} // verus!
