//! The helper: it processes each period once, opens the envelopes of the
//! recipients, evaluates on the ciphertexts inside without learning a
//! plaintext, and signs what it publishes. Against a malicious helper the
//! committee relies on the auditor's signature over the helper's input,
//! which the helper verifies first.

use crate::auditor::envelope_count;
use crate::bytes::concat_lists;
use crate::codec::{bytes_to_ctxts_1, ctxts_t_to_bytes};
use crate::envelope::open_as_helper;
use crate::error::Error;
use crate::g1::{g1_identity_encoding, g1_sum, G1};
use crate::period::{stale, PeriodClock};
use crate::signature::{sign, verify};
use crate::thbgn::{product_of, Ciphertext1, CiphertextT, PublicParameters};
use crate::thelgamal::{bytes_to_ctxt, ctxt_to_bytes, Ciphertext};
use crate::INFO_LEN;
use tink_core::keyset::Handle;
use vstd::prelude::*;

verus! {

/// Whether `row` holds the products of the first ciphertext of `payload`,
/// the indicator, with each of the others, the data fields, in order.
pub open spec fn is_product_row(row: Seq<CiphertextT>, payload: Seq<Ciphertext1>) -> bool {
    payload.len() > 0 && row.len() == payload.len() - 1 && forall|j: int|
        0 <= j < row.len() ==> (#[trigger] row[j])@ == product_of(payload[0], payload[j + 1])
}

/// Whether some payload holds no ciphertext at all.
pub open spec fn some_empty(payloads: Seq<Vec<Ciphertext1>>) -> bool {
    exists|k: int| 0 <= k < payloads.len() && (#[trigger] payloads[k])@.len() == 0
}

/// The component-wise sum of the first `n` ciphertexts, added up from the
/// neutral element in order.
pub open spec fn folded(ctxts: Seq<Ciphertext>, n: nat) -> (Seq<u8>, Seq<u8>)
    decreases n,
{
    if n == 0 {
        (g1_identity_encoding(), g1_identity_encoding())
    } else {
        (
            g1_sum(folded(ctxts, (n - 1) as nat).0, ctxts[n - 1].0@),
            g1_sum(folded(ctxts, (n - 1) as nat).1, ctxts[n - 1].1@),
        )
    }
}

/// Multiplies the indicator of a payload, its first ciphertext, with each of
/// its data fields. A payload without a ciphertext is refused.
pub fn multiply_out(pp: PublicParameters, payload: &Vec<Ciphertext1>) -> (r: Result<
    Vec<CiphertextT>,
    Error,
>)
    ensures
        match r {
            Ok(row) => is_product_row(row@, payload@),
            Err(e) => e == Error::InvalidParameter && payload@.len() == 0,
        },
{
    let n: usize = payload.len();
    if n == 0 {
        return Err(Error::InvalidParameter);
    }
    let indicator = payload[0];
    let mut row: Vec<CiphertextT> = Vec::new();
    let mut j: usize = 1;
    while j < n
        invariant
            1 <= j <= n,
            n == payload@.len(),
            indicator == payload@[0],
            row@.len() == j - 1,
            forall|k: int|
                0 <= k < j - 1 ==> (#[trigger] row@[k])@ == product_of(
                    payload@[0],
                    payload@[k + 1],
                ),
        decreases n - j,
    {
        row.push(crate::thbgn::mul(pp, indicator, payload[j]));
        j = j + 1;
    }
    Ok(row)
}

/// Multiplies out each payload of the reference recipient: one row of
/// target-level ciphertexts for each payload.
pub fn evaluate_products(pp: PublicParameters, payloads: &Vec<Vec<Ciphertext1>>) -> (r: Result<
    Vec<Vec<CiphertextT>>,
    Error,
>)
    ensures
        match r {
            Ok(rows) => !some_empty(payloads@) && rows@.len() == payloads@.len() && forall|k: int|
                0 <= k < rows@.len() ==> is_product_row((#[trigger] rows@[k])@, payloads@[k]@),
            Err(e) => e == Error::InvalidParameter && some_empty(payloads@),
        },
{
    let n: usize = payloads.len();
    let mut rows: Vec<Vec<CiphertextT>> = Vec::new();
    let mut k: usize = 0;
    while k < n
        invariant
            k <= n,
            n == payloads@.len(),
            rows@.len() == k,
            forall|i: int| 0 <= i < k ==> (#[trigger] payloads@[i])@.len() > 0,
            forall|i: int|
                0 <= i < k ==> is_product_row((#[trigger] rows@[i])@, payloads@[i]@),
        decreases n - k,
    {
        match multiply_out(pp, &payloads[k]) {
            Ok(row) => {
                rows.push(row);
            },
            Err(e) => {
                return Err(e);
            },
        }
        k = k + 1;
    }
    Ok(rows)
}

/// Adds up the ciphertexts of all recipients, component by component.
pub fn fold_sum(ctxts: &Vec<Ciphertext>) -> (r: Ciphertext)
    ensures
        r@ == folded(ctxts@, ctxts@.len()),
{
    let n: usize = ctxts.len();
    let mut acc = Ciphertext(G1::identity(), G1::identity());
    let mut i: usize = 0;
    while i < n
        invariant
            i <= n,
            n == ctxts@.len(),
            acc@ == folded(ctxts@, i as nat),
        decreases n - i,
    {
        acc = Ciphertext(acc.0.plus(&ctxts[i].0), acc.1.plus(&ctxts[i].1));
        i = i + 1;
    }
    acc
}

/// Opens one envelope for the period and decodes the payload of level-1
/// ciphertexts in it.
fn open_payload(envelope: &Vec<u8>, id: u16, sk_enc: &Handle) -> (r: Result<
    Vec<Ciphertext1>,
    Error,
>)
    ensures
        match r {
            Ok(payload) => payload@.len() == INFO_LEN,
            Err(e) => e == Error::EnvelopeAuth || e == Error::Deserialization,
        },
{
    let plaintext = match open_as_helper(sk_enc, envelope.as_slice(), id) {
        Ok(p) => p,
        Err(e) => {
            return Err(e);
        },
    };
    bytes_to_ctxts_1(&plaintext)
}

/// Opens one envelope for the period and decodes the ElGamal ciphertext in
/// it.
fn open_ctxt(envelope: &Vec<u8>, id: u16, sk_enc: &Handle) -> (r: Result<Ciphertext, Error>)
    ensures
        r.is_err() ==> r.unwrap_err() == Error::EnvelopeAuth || r.unwrap_err()
            == Error::Deserialization,
{
    let plaintext = match open_as_helper(sk_enc, envelope.as_slice(), id) {
        Ok(p) => p,
        Err(e) => {
            return Err(e);
        },
    };
    bytes_to_ctxt(plaintext.as_slice())
}

/// Whether an error is one for which the helper aborts a period that is not
/// stale: the auditor's signature was not accepted, an envelope did not
/// open, a payload did not decode, or there was nothing to evaluate or the
/// key could not sign.
pub open spec fn helper_abort(e: Error) -> bool {
    e == Error::AuditorSignatureInvalid || opening_abort(e)
}

/// Whether an error is one for which the helper aborts once the period and
/// the auditor's signature are accepted: an envelope did not open, a payload
/// did not decode, or there was nothing to evaluate or the key could not
/// sign.
pub open spec fn opening_abort(e: Error) -> bool {
    e == Error::EnvelopeAuth || e == Error::Deserialization || e == Error::InvalidParameter
}

/// Whether `rows` holds, row by row, the products of the payloads: each
/// payload has `INFO_LEN` ciphertexts, and its row holds the products of its
/// indicator with its data fields.
pub open spec fn products_of(rows: Seq<Vec<CiphertextT>>, payloads: Seq<Vec<Ciphertext1>>) -> bool {
    rows.len() == payloads.len() && forall|k: int|
        0 <= k < rows.len() ==> payloads[k]@.len() == INFO_LEN && is_product_row(
            (#[trigger] rows[k])@,
            payloads[k]@,
        )
}

/// Whether `rows` is what the helper of the two-level scheme publishes for
/// `count` payloads of the reference recipient: the products of some
/// payloads that the envelopes opened to, one row for each.
pub open spec fn publishes_products(rows: Seq<Vec<CiphertextT>>, count: nat) -> bool {
    exists|payloads: Seq<Vec<Ciphertext1>>|
        payloads.len() == count && #[trigger] products_of(rows, payloads)
}

/// Whether `sum` is what the helper of the single-level scheme publishes for
/// `count` envelopes: the fold of some ciphertexts that the envelopes opened
/// to, one for each.
pub open spec fn publishes_fold(sum: Ciphertext, count: nat) -> bool {
    exists|opened: Seq<Ciphertext>|
        opened.len() == count && sum@ == #[trigger] folded(opened, opened.len())
}

/// What the helper does with the verdict on the auditor's signature: it
/// aborts where the signature was not accepted.
pub fn decide_audited(accepted: bool) -> (r: Result<(), Error>)
    ensures
        r == (if accepted {
            Ok::<(), Error>(())
        } else {
            Err::<(), Error>(Error::AuditorSignatureInvalid)
        }),
{
    if accepted {
        Ok(())
    } else {
        Err(Error::AuditorSignatureInvalid)
    }
}

/// The helper of the two-level scheme where it is honest but curious. It
/// refuses a stale period, opens the envelope of each recipient, takes the
/// first recipient as the reference, multiplies its indicator with its data
/// fields, and signs the canonical bytes of the result. What it publishes is
/// the row of products of the payload that the reference envelope opened
/// to. The period is recorded only where the helper publishes.
pub fn helper_thhe_2_hbc(
    clock: &mut PeriodClock,
    pp: PublicParameters,
    envelopes: &Vec<Vec<u8>>,
    id: u16,
    sk_enc: &Handle,
    sk_sig: &Handle,
) -> (r: Result<(Vec<Vec<CiphertextT>>, Vec<u8>), Error>)
    ensures
        match r {
            Ok((rows, signature)) => !stale(id, old(clock)@) && final(clock)@ == id
                && envelopes@.len() > 0 && rows@.len() == 1 && rows@[0]@.len() == INFO_LEN - 1
                && publishes_products(rows@, 1),
            Err(e) => final(clock)@ == old(clock)@ && (if stale(id, old(clock)@) {
                e == Error::StalePeriod
            } else {
                opening_abort(e)
            }),
        },
{
    match clock.check(id) {
        Ok(()) => {},
        Err(e) => {
            return Err(e);
        },
    }
    let ghost start = clock@;
    let n: usize = envelopes.len();
    let mut payloads: Vec<Vec<Ciphertext1>> = Vec::new();
    let mut i: usize = 0;
    while i < n
        invariant
            i <= n,
            n == envelopes@.len(),
            payloads@.len() == i,
            clock@ == start,
            !stale(id, start),
            forall|k: int| 0 <= k < i ==> (#[trigger] payloads@[k])@.len() == INFO_LEN,
        decreases n - i,
    {
        match open_payload(&envelopes[i], id, sk_enc) {
            Ok(payload) => {
                payloads.push(payload);
            },
            Err(e) => {
                return Err(e);
            },
        }
        i = i + 1;
    }
    if n == 0 {
        return Err(Error::InvalidParameter);
    }
    let row = match multiply_out(pp, &payloads[0]) {
        Ok(row) => row,
        Err(e) => {
            return Err(e);
        },
    };
    let mut rows: Vec<Vec<CiphertextT>> = Vec::new();
    rows.push(row);
    proof {
        let reference = seq![payloads@[0]];
        assert(products_of(rows@, reference));
    }
    let data = ctxts_t_to_bytes(&rows);
    let signature = match sign(sk_sig, data.as_slice()) {
        Ok(s) => s,
        Err(e) => {
            return Err(e);
        },
    };
    match clock.advance(id) {
        Ok(()) => Ok((rows, signature)),
        Err(e) => Err(e),
    }
}

/// Opens and decodes every envelope of every recipient.
fn open_payloads(envelopes: &Vec<Vec<Vec<u8>>>, id: u16, sk_enc: &Handle) -> (r: Result<
    Vec<Vec<Vec<Ciphertext1>>>,
    Error,
>)
    ensures
        match r {
            Ok(opened) => opened@.len() == envelopes@.len() && forall|i: int|
                0 <= i < opened@.len() ==> (#[trigger] opened@[i])@.len() == envelopes@[i]@.len()
                    && forall|j: int|
                    0 <= j < opened@[i]@.len() ==> (#[trigger] opened@[i]@[j])@.len() == INFO_LEN,
            Err(e) => e == Error::EnvelopeAuth || e == Error::Deserialization,
        },
{
    let n: usize = envelopes.len();
    let mut opened: Vec<Vec<Vec<Ciphertext1>>> = Vec::new();
    let mut i: usize = 0;
    while i < n
        invariant
            i <= n,
            n == envelopes@.len(),
            opened@.len() == i,
            forall|a: int|
                0 <= a < i ==> (#[trigger] opened@[a])@.len() == envelopes@[a]@.len() && forall|
                    b: int,
                | 0 <= b < opened@[a]@.len() ==> (#[trigger] opened@[a]@[b])@.len() == INFO_LEN,
        decreases n - i,
    {
        let m: usize = envelopes[i].len();
        let mut payloads: Vec<Vec<Ciphertext1>> = Vec::new();
        let mut j: usize = 0;
        while j < m
            invariant
                j <= m,
                i < n,
                n == envelopes@.len(),
                m == envelopes@[i as int]@.len(),
                payloads@.len() == j,
                forall|b: int| 0 <= b < j ==> (#[trigger] payloads@[b])@.len() == INFO_LEN,
            decreases m - j,
        {
            match open_payload(&envelopes[i][j], id, sk_enc) {
                Ok(payload) => {
                    payloads.push(payload);
                },
                Err(e) => {
                    return Err(e);
                },
            }
            j = j + 1;
        }
        opened.push(payloads);
        i = i + 1;
    }
    Ok(opened)
}

/// The helper of the two-level scheme once the verdict on the auditor's
/// signature is known. It refuses a stale period, then a signature that was
/// not accepted, before any envelope is opened. Otherwise it opens every
/// envelope, takes the first recipient as the reference, multiplies out each
/// of its payloads, and signs the canonical bytes of the result. What it
/// publishes is the rows of products of the payloads that the reference
/// recipient's envelopes opened to. The period is recorded only where the
/// helper publishes.
pub fn helper_thhe_2_audited(
    clock: &mut PeriodClock,
    pp: PublicParameters,
    envelopes: &Vec<Vec<Vec<u8>>>,
    id: u16,
    accepted: bool,
    sk_enc: &Handle,
    sk_sig: &Handle,
) -> (r: Result<(Vec<Vec<CiphertextT>>, Vec<u8>), Error>)
    ensures
        match r {
            Ok((rows, signature)) => !stale(id, old(clock)@) && accepted && final(clock)@ == id
                && envelopes@.len() > 0 && rows@.len() == envelopes@[0]@.len()
                && publishes_products(rows@, envelopes@[0]@.len()) && forall|k: int|
                0 <= k < rows@.len() ==> (#[trigger] rows@[k])@.len() == INFO_LEN - 1,
            Err(e) => final(clock)@ == old(clock)@ && (if stale(id, old(clock)@) {
                e == Error::StalePeriod
            } else if !accepted {
                e == Error::AuditorSignatureInvalid
            } else {
                opening_abort(e)
            }),
        },
{
    match clock.check(id) {
        Ok(()) => {},
        Err(e) => {
            return Err(e);
        },
    }
    match decide_audited(accepted) {
        Ok(()) => {},
        Err(e) => {
            return Err(e);
        },
    }
    let opened = match open_payloads(envelopes, id, sk_enc) {
        Ok(o) => o,
        Err(e) => {
            return Err(e);
        },
    };
    if opened.len() == 0 {
        return Err(Error::InvalidParameter);
    }
    let rows = match evaluate_products(pp, &opened[0]) {
        Ok(rows) => rows,
        Err(e) => {
            return Err(e);
        },
    };
    assert forall|k: int| 0 <= k < rows@.len() implies (#[trigger] rows@[k])@.len() == INFO_LEN
        - 1 by {
        assert(is_product_row(rows@[k]@, opened@[0]@[k]@));
    }
    assert(products_of(rows@, opened@[0]@)) by {
        assert forall|k: int| 0 <= k < rows@.len() implies opened@[0]@[k]@.len() == INFO_LEN
            && is_product_row((#[trigger] rows@[k])@, opened@[0]@[k]@) by {
            assert(opened@[0]@[k]@.len() == INFO_LEN);
        }
    }
    let data = ctxts_t_to_bytes(&rows);
    let signature = match sign(sk_sig, data.as_slice()) {
        Ok(s) => s,
        Err(e) => {
            return Err(e);
        },
    };
    match clock.advance(id) {
        Ok(()) => Ok((rows, signature)),
        Err(e) => Err(e),
    }
}

/// The helper of the two-level scheme where it may be malicious. It refuses
/// a stale period, holds the auditor's signature against the envelopes it
/// received, one after the other, and goes on as `helper_thhe_2_audited`
/// does with the verdict.
pub fn helper_thhe_2_mal(
    clock: &mut PeriodClock,
    pp: PublicParameters,
    envelopes: &Vec<Vec<Vec<u8>>>,
    id: u16,
    sig_auditor: &Vec<u8>,
    sk_enc: &Handle,
    sk_sig: &Handle,
    vk_auditor: &Handle,
) -> (r: Result<(Vec<Vec<CiphertextT>>, Vec<u8>), Error>)
    ensures
        match r {
            Ok((rows, signature)) => !stale(id, old(clock)@) && final(clock)@ == id
                && envelopes@.len() > 0 && rows@.len() == envelopes@[0]@.len()
                && publishes_products(rows@, envelopes@[0]@.len()) && forall|k: int|
                0 <= k < rows@.len() ==> (#[trigger] rows@[k])@.len() == INFO_LEN - 1,
            Err(e) => final(clock)@ == old(clock)@ && (if stale(id, old(clock)@) {
                e == Error::StalePeriod
            } else {
                helper_abort(e)
            }),
        },
{
    match clock.check(id) {
        Ok(()) => {},
        Err(e) => {
            return Err(e);
        },
    }
    let received = concat_lists(envelopes);
    let accepted = verify(vk_auditor, sig_auditor.as_slice(), received.as_slice());
    helper_thhe_2_audited(clock, pp, envelopes, id, accepted, sk_enc, sk_sig)
}

/// The helper of the single-level scheme where it is honest but curious. It
/// refuses a stale period, opens the envelope of each recipient, adds up the
/// ciphertexts inside, and signs the encoding of the sum. What it publishes
/// is the fold of the ciphertexts that the envelopes opened to, one for
/// each. The period is recorded only where the helper publishes.
pub fn helper_thhe_1_hbc(
    clock: &mut PeriodClock,
    envelopes: &Vec<Vec<u8>>,
    id: u16,
    sk_enc: &Handle,
    sk_sig: &Handle,
) -> (r: Result<(Ciphertext, Vec<u8>), Error>)
    ensures
        match r {
            Ok((sum, signature)) => !stale(id, old(clock)@) && final(clock)@ == id
                && publishes_fold(sum, envelopes@.len()),
            Err(e) => final(clock)@ == old(clock)@ && (if stale(id, old(clock)@) {
                e == Error::StalePeriod
            } else {
                opening_abort(e)
            }),
        },
{
    match clock.check(id) {
        Ok(()) => {},
        Err(e) => {
            return Err(e);
        },
    }
    let ghost start = clock@;
    let n: usize = envelopes.len();
    let mut ctxts: Vec<Ciphertext> = Vec::new();
    let mut i: usize = 0;
    while i < n
        invariant
            i <= n,
            n == envelopes@.len(),
            ctxts@.len() == i,
            clock@ == start,
            !stale(id, start),
        decreases n - i,
    {
        match open_ctxt(&envelopes[i], id, sk_enc) {
            Ok(ct) => {
                ctxts.push(ct);
            },
            Err(e) => {
                return Err(e);
            },
        }
        i = i + 1;
    }
    let sum = fold_sum(&ctxts);
    assert(publishes_fold(sum, envelopes@.len())) by {
        assert(sum@ == folded(ctxts@, ctxts@.len()));
    }
    let data = ctxt_to_bytes(&sum);
    let signature = match sign(sk_sig, data.as_slice()) {
        Ok(s) => s,
        Err(e) => {
            return Err(e);
        },
    };
    match clock.advance(id) {
        Ok(()) => Ok((sum, signature)),
        Err(e) => Err(e),
    }
}

/// The helper of the single-level scheme once the verdict on the auditor's
/// signature is known. It refuses a stale period, then a signature that was
/// not accepted, before any envelope is opened. Otherwise it opens every
/// envelope, adds up the ciphertexts inside, and signs the encoding of the
/// sum. What it publishes is the fold of the ciphertexts that the envelopes
/// opened to, one for each envelope of each recipient. The period is
/// recorded only where the helper publishes.
pub fn helper_thhe_1_audited(
    clock: &mut PeriodClock,
    envelopes: &Vec<Vec<Vec<u8>>>,
    id: u16,
    accepted: bool,
    sk_enc: &Handle,
    sk_sig: &Handle,
) -> (r: Result<(Ciphertext, Vec<u8>), Error>)
    ensures
        match r {
            Ok((sum, signature)) => !stale(id, old(clock)@) && accepted && final(clock)@ == id
                && publishes_fold(sum, envelope_count(envelopes@, envelopes@.len())),
            Err(e) => final(clock)@ == old(clock)@ && (if stale(id, old(clock)@) {
                e == Error::StalePeriod
            } else if !accepted {
                e == Error::AuditorSignatureInvalid
            } else {
                opening_abort(e)
            }),
        },
{
    match clock.check(id) {
        Ok(()) => {},
        Err(e) => {
            return Err(e);
        },
    }
    match decide_audited(accepted) {
        Ok(()) => {},
        Err(e) => {
            return Err(e);
        },
    }
    let ghost start = clock@;
    let n: usize = envelopes.len();
    let mut ctxts: Vec<Ciphertext> = Vec::new();
    let mut i: usize = 0;
    while i < n
        invariant
            i <= n,
            n == envelopes@.len(),
            ctxts@.len() == envelope_count(envelopes@, i as nat),
            clock@ == start,
            !stale(id, start),
            accepted,
        decreases n - i,
    {
        let m: usize = envelopes[i].len();
        let mut j: usize = 0;
        while j < m
            invariant
                j <= m,
                i < n,
                n == envelopes@.len(),
                m == envelopes@[i as int]@.len(),
                ctxts@.len() == envelope_count(envelopes@, i as nat) + j,
                clock@ == start,
                !stale(id, start),
                accepted,
            decreases m - j,
        {
            match open_ctxt(&envelopes[i][j], id, sk_enc) {
                Ok(ct) => {
                    ctxts.push(ct);
                },
                Err(e) => {
                    return Err(e);
                },
            }
            j = j + 1;
        }
        i = i + 1;
    }
    let sum = fold_sum(&ctxts);
    assert(publishes_fold(sum, envelope_count(envelopes@, envelopes@.len()))) by {
        assert(sum@ == folded(ctxts@, ctxts@.len()));
    }
    let data = ctxt_to_bytes(&sum);
    let signature = match sign(sk_sig, data.as_slice()) {
        Ok(s) => s,
        Err(e) => {
            return Err(e);
        },
    };
    match clock.advance(id) {
        Ok(()) => Ok((sum, signature)),
        Err(e) => Err(e),
    }
}

/// The helper of the single-level scheme where it may be malicious. It
/// refuses a stale period, holds the auditor's signature against the
/// envelopes it received, one after the other, and goes on as
/// `helper_thhe_1_audited` does with the verdict.
pub fn helper_thhe_1_mal(
    clock: &mut PeriodClock,
    envelopes: &Vec<Vec<Vec<u8>>>,
    id: u16,
    sig_auditor: &Vec<u8>,
    sk_enc: &Handle,
    sk_sig: &Handle,
    vk_auditor: &Handle,
) -> (r: Result<(Ciphertext, Vec<u8>), Error>)
    ensures
        match r {
            Ok((sum, signature)) => !stale(id, old(clock)@) && final(clock)@ == id
                && publishes_fold(sum, envelope_count(envelopes@, envelopes@.len())),
            Err(e) => final(clock)@ == old(clock)@ && (if stale(id, old(clock)@) {
                e == Error::StalePeriod
            } else {
                helper_abort(e)
            }),
        },
{
    match clock.check(id) {
        Ok(()) => {},
        Err(e) => {
            return Err(e);
        },
    }
    let received = concat_lists(envelopes);
    let accepted = verify(vk_auditor, sig_auditor.as_slice(), received.as_slice());
    helper_thhe_1_audited(clock, envelopes, id, accepted, sk_enc, sk_sig)
}

} // verus!
