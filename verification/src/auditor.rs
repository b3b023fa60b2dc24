//! The auditor: it opens the tagged payloads of the recipients, admits their
//! secret tags, and forwards the envelopes that are meant for the helper.
//! Against a malicious helper it also holds each recipient to the exact
//! number of tags and signs what it forwards.

use crate::bytes::{concat_all, views};
use crate::envelope::open_as_auditor;
use crate::error::Error;
use crate::signature::sign;
use crate::tags::{
    admission, admit_tags, check_tag_counts, counts_exact, split_tagged, tag_views, SecretTag,
    TagSet,
};
use crate::MAX_ENTITLEMENT;
use tink_core::keyset::Handle;
use vstd::prelude::*;

verus! {

/// Whether some payload is too short to hold a tag.
pub open spec fn some_too_short(payloads: Seq<Seq<u8>>) -> bool {
    exists|i: int| 0 <= i < payloads.len() && (#[trigger] payloads[i]).len() < 16
}

/// The tags of the payloads, in order: the first sixteen bytes of each.
pub open spec fn submitted_tags(payloads: Seq<Seq<u8>>) -> Seq<Seq<u8>> {
    Seq::new(payloads.len(), |i: int| payloads[i].take(16))
}

/// Why the auditor refuses a list of opened payloads, if it does: a payload
/// that holds no tag, then the first tag that is not valid or was seen
/// before, then, where the number of tags is held exact, a recipient with
/// another number of tags than `MAX_ENTITLEMENT`.
pub open spec fn audit_refusal(
    payloads: Seq<Seq<u8>>,
    counts: Seq<usize>,
    valid: Set<Seq<u8>>,
    exact: bool,
) -> Option<Error> {
    if some_too_short(payloads) {
        Some(Error::Deserialization)
    } else {
        match admission(submitted_tags(payloads), valid) {
            Some(e) => Some(e),
            None => if exact && !counts_exact(counts) {
                Some(Error::WrongTagCount)
            } else {
                None
            },
        }
    }
}

/// Audits the opened payloads of a period, given in the order in which
/// they were submitted, with the number of payloads of each recipient. Where
/// nothing is refused, the envelopes behind the tags are handed on in order.
pub fn audit(payloads: &Vec<Vec<u8>>, counts: &Vec<usize>, valid: &TagSet, exact: bool) -> (r:
    Result<Vec<Vec<u8>>, Error>)
    ensures
        match r {
            Ok(forwarded) => audit_refusal(views(payloads@), counts@, valid@, exact).is_none()
                && forwarded@.len() == payloads@.len() && forall|i: int|
                0 <= i < payloads@.len() ==> (#[trigger] forwarded@[i])@ == payloads@[i]@.skip(16),
            Err(e) => audit_refusal(views(payloads@), counts@, valid@, exact) == Some(e),
        },
{
    let n: usize = payloads.len();
    let mut tags: Vec<SecretTag> = Vec::new();
    let mut forwarded: Vec<Vec<u8>> = Vec::new();
    let mut i: usize = 0;
    while i < n
        invariant
            i <= n,
            n == payloads@.len(),
            tags@.len() == i,
            forwarded@.len() == i,
            forall|k: int| 0 <= k < i ==> (#[trigger] payloads@[k])@.len() >= 16,
            forall|k: int| 0 <= k < i ==> (#[trigger] tags@[k])@ == payloads@[k]@.take(16),
            forall|k: int| 0 <= k < i ==> (#[trigger] forwarded@[k])@ == payloads@[k]@.skip(16),
        decreases n - i,
    {
        match split_tagged(payloads[i].as_slice()) {
            Ok((tag, envelope)) => {
                assert(tag@ =~= payloads@[i as int]@.take(16));
                assert(envelope@ =~= payloads@[i as int]@.skip(16));
                tags.push(tag);
                forwarded.push(envelope);
            },
            Err(e) => {
                assert(views(payloads@)[i as int].len() < 16);
                return Err(e);
            },
        }
        i = i + 1;
    }
    assert(!some_too_short(views(payloads@))) by {
        assert forall|k: int| 0 <= k < views(payloads@).len() implies (#[trigger] views(
            payloads@,
        )[k]).len() >= 16 by {
            assert(payloads@[k]@.len() >= 16);
        }
    }
    assert(tag_views(tags@) =~= submitted_tags(views(payloads@)));
    match admit_tags(&tags, valid) {
        Ok(()) => {},
        Err(e) => {
            return Err(e);
        },
    }
    if exact {
        match check_tag_counts(counts) {
            Ok(()) => {},
            Err(e) => {
                return Err(e);
            },
        }
    }
    Ok(forwarded)
}

/// The number of envelopes that the first `n` recipients sent.
pub open spec fn envelope_count(envelopes: Seq<Vec<Vec<u8>>>, n: nat) -> nat
    decreases n,
{
    if n == 0 {
        0
    } else {
        envelope_count(envelopes, (n - 1) as nat) + envelopes[n - 1]@.len()
    }
}

/// Whether `counts` holds the number of envelopes that each recipient sent,
/// in order.
pub open spec fn counts_match(counts: Seq<usize>, envelopes: Seq<Vec<Vec<u8>>>) -> bool {
    counts.len() == envelopes.len() && forall|i: int|
        0 <= i < envelopes.len() ==> #[trigger] counts[i] == envelopes[i]@.len()
}

/// What the audit makes of a list of opened payloads: its refusal, or the
/// envelopes behind the tags, in order.
pub open spec fn audit_outcome(
    payloads: Seq<Seq<u8>>,
    counts: Seq<usize>,
    valid: Set<Seq<u8>>,
    exact: bool,
) -> Result<Seq<Seq<u8>>, Error> {
    match audit_refusal(payloads, counts, valid, exact) {
        Some(e) => Err(e),
        None => Ok(Seq::new(payloads.len(), |i: int| payloads[i].skip(16))),
    }
}

/// Whether the auditor's result is the given outcome of an audit.
pub open spec fn is_outcome(
    r: Result<Vec<Vec<u8>>, Error>,
    outcome: Result<Seq<Seq<u8>>, Error>,
) -> bool {
    match (r, outcome) {
        (Ok(forwarded), Ok(expected)) => views(forwarded@) == expected,
        (Err(e), Err(expected)) => e == expected,
        _ => false,
    }
}

/// Whether the auditor's result is what the audit makes of some list of
/// opened payloads, one for each envelope that was received.
pub open spec fn audits_what_was_opened(
    r: Result<Vec<Vec<u8>>, Error>,
    envelopes: Seq<Vec<Vec<u8>>>,
    valid: Set<Seq<u8>>,
    exact: bool,
) -> bool {
    exists|payloads: Seq<Seq<u8>>, counts: Seq<usize>|
        payloads.len() == envelope_count(envelopes, envelopes.len()) && counts_match(
            counts,
            envelopes,
        ) && #[trigger] is_outcome(r, audit_outcome(payloads, counts, valid, exact))
}

/// The more recipients are counted, the more envelopes.
pub proof fn lemma_envelope_count_grows(envelopes: Seq<Vec<Vec<u8>>>, a: nat, b: nat)
    requires
        a <= b,
    ensures
        envelope_count(envelopes, a) <= envelope_count(envelopes, b),
    decreases b,
{
    if a < b {
        lemma_envelope_count_grows(envelopes, a, (b - 1) as nat);
    }
}

/// Opens the payloads of all recipients, in order, and notes how many each
/// recipient sent. It fails only at an envelope that does not open.
fn open_all(envelopes: &Vec<Vec<Vec<u8>>>, sk_enc: &Handle) -> (r: Result<
    (Vec<Vec<u8>>, Vec<usize>),
    Error,
>)
    ensures
        match r {
            Ok((payloads, counts)) => counts_match(counts@, envelopes@) && payloads@.len()
                == envelope_count(envelopes@, envelopes@.len()),
            Err(e) => e == Error::EnvelopeAuth && envelope_count(envelopes@, envelopes@.len()) > 0,
        },
{
    let n: usize = envelopes.len();
    let mut payloads: Vec<Vec<u8>> = Vec::new();
    let mut counts: Vec<usize> = Vec::new();
    let mut i: usize = 0;
    while i < n
        invariant
            i <= n,
            n == envelopes@.len(),
            counts@.len() == i,
            forall|k: int| 0 <= k < i ==> #[trigger] counts@[k] == envelopes@[k]@.len(),
            payloads@.len() == envelope_count(envelopes@, i as nat),
        decreases n - i,
    {
        let m: usize = envelopes[i].len();
        let mut j: usize = 0;
        while j < m
            invariant
                j <= m,
                i < n,
                n == envelopes@.len(),
                m == envelopes@[i as int]@.len(),
                payloads@.len() == envelope_count(envelopes@, i as nat) + j,
            decreases m - j,
        {
            match open_as_auditor(sk_enc, envelopes[i][j].as_slice()) {
                Ok(payload) => {
                    payloads.push(payload);
                },
                Err(e) => {
                    proof {
                        lemma_envelope_count_grows(envelopes@, (i + 1) as nat, n as nat);
                    }
                    return Err(e);
                },
            }
            j = j + 1;
        }
        counts.push(m);
        i = i + 1;
    }
    Ok((payloads, counts))
}

/// Whether every recipient sent exactly `MAX_ENTITLEMENT` payloads.
pub open spec fn sent_exact(envelopes: Seq<Vec<Vec<u8>>>) -> bool {
    forall|i: int| 0 <= i < envelopes.len() ==> (#[trigger] envelopes[i])@.len() == MAX_ENTITLEMENT
}

/// The auditor where the helper is honest but curious: opens the payloads,
/// admits the tags, and forwards the envelopes for the helper in order. It
/// aborts at an envelope that does not open; otherwise its result is what
/// `audit` makes of the opened payloads, one for each envelope: as many
/// envelopes are forwarded as were received, each the rest of a payload
/// whose tag was admitted.
pub fn auditor_hbc(envelopes: &Vec<Vec<Vec<u8>>>, valid: &TagSet, sk_enc: &Handle) -> (r: Result<
    Vec<Vec<u8>>,
    Error,
>)
    ensures
        (r == Err::<Vec<Vec<u8>>, Error>(Error::EnvelopeAuth) && envelope_count(
            envelopes@,
            envelopes@.len(),
        ) > 0) || audits_what_was_opened(r, envelopes@, valid@, false),
        r.is_ok() ==> r.unwrap()@.len() == envelope_count(envelopes@, envelopes@.len()),
        r.is_err() ==> r.unwrap_err() == Error::EnvelopeAuth || r.unwrap_err()
            == Error::Deserialization || r.unwrap_err() == Error::InvalidSecretTag
            || r.unwrap_err() == Error::DuplicateSecretTag,
{
    let (payloads, counts) = match open_all(envelopes, sk_enc) {
        Ok(opened) => opened,
        Err(e) => {
            return Err(e);
        },
    };
    proof {
        crate::tags::lemma_admission_errors(submitted_tags(views(payloads@)), valid@);
    }
    let r = audit(&payloads, &counts, valid, false);
    proof {
        let opened = views(payloads@);
        if r.is_ok() {
            assert(views(r.unwrap()@) =~= Seq::new(opened.len(), |i: int| opened[i].skip(16)));
        }
        assert(is_outcome(r, audit_outcome(opened, counts@, valid@, false)));
    }
    r
}

/// Whether the result of the auditor against a malicious helper is what it
/// makes of the outcome of an audit: the refusal of the audit, or the
/// forwarded envelopes with a signature, or the refusal of the signing key.
pub open spec fn is_signed_outcome(
    r: Result<(Vec<Vec<u8>>, Vec<u8>), Error>,
    outcome: Result<Seq<Seq<u8>>, Error>,
) -> bool {
    match outcome {
        Err(e) => r == Err::<(Vec<Vec<u8>>, Vec<u8>), Error>(e),
        Ok(expected) => r == Err::<(Vec<Vec<u8>>, Vec<u8>), Error>(Error::InvalidParameter) || (
        r.is_ok() && views(r.unwrap().0@) == expected),
    }
}

/// Whether the result of the auditor against a malicious helper is what it
/// makes of the audit of some list of opened payloads, one for each envelope
/// that was received.
pub open spec fn audits_and_signs_what_was_opened(
    r: Result<(Vec<Vec<u8>>, Vec<u8>), Error>,
    envelopes: Seq<Vec<Vec<u8>>>,
    valid: Set<Seq<u8>>,
) -> bool {
    exists|payloads: Seq<Seq<u8>>, counts: Seq<usize>|
        payloads.len() == envelope_count(envelopes, envelopes.len()) && counts_match(
            counts,
            envelopes,
        ) && #[trigger] is_signed_outcome(r, audit_outcome(payloads, counts, valid, true))
}

/// An audit accepts exactly where every payload holds a tag, every tag is
/// valid, no tag occurs twice and, where the number of tags is held exact,
/// every recipient sent `MAX_ENTITLEMENT` of them; and an audit that accepts
/// forwards one envelope for each payload.
pub proof fn lemma_audit_accepts(
    payloads: Seq<Seq<u8>>,
    counts: Seq<usize>,
    valid: Set<Seq<u8>>,
    exact: bool,
)
    ensures
        audit_outcome(payloads, counts, valid, exact).is_ok() <==> (!some_too_short(payloads) && (
        forall|i: int|
            0 <= i < payloads.len() ==> valid.contains(#[trigger] submitted_tags(payloads)[i]))
            && submitted_tags(payloads).no_duplicates() && (exact ==> counts_exact(counts))),
        audit_outcome(payloads, counts, valid, exact).is_ok() ==> audit_outcome(
            payloads,
            counts,
            valid,
            exact,
        ).unwrap().len() == payloads.len(),
{
    crate::tags::lemma_admission_accepts(submitted_tags(payloads), valid);
}

/// Tag uniqueness at the auditor: where the auditor against a malicious
/// helper forwards anything, the envelopes opened to payloads, one for each,
/// that all hold a tag, whose tags are all valid and all different, with
/// `MAX_ENTITLEMENT` of them from every recipient, and what is forwarded is
/// the rest of each payload, in order.
pub proof fn lemma_forwarded_were_admitted(
    r: Result<(Vec<Vec<u8>>, Vec<u8>), Error>,
    envelopes: Seq<Vec<Vec<u8>>>,
    valid: Set<Seq<u8>>,
)
    requires
        r.is_ok(),
        audits_and_signs_what_was_opened(r, envelopes, valid),
    ensures
        exists|payloads: Seq<Seq<u8>>|
            payloads.len() == envelope_count(envelopes, envelopes.len()) && !some_too_short(
                payloads,
            ) && (forall|i: int|
                0 <= i < payloads.len() ==> valid.contains(#[trigger] submitted_tags(payloads)[i]))
                && submitted_tags(payloads).no_duplicates() && sent_exact(envelopes)
                && #[trigger] views(r.unwrap().0@) == Seq::new(
                payloads.len(),
                |i: int| payloads[i].skip(16),
            ),
{
    let (payloads, counts) = choose|payloads: Seq<Seq<u8>>, counts: Seq<usize>|
        payloads.len() == envelope_count(envelopes, envelopes.len()) && counts_match(
            counts,
            envelopes,
        ) && #[trigger] is_signed_outcome(r, audit_outcome(payloads, counts, valid, true));
    lemma_audit_accepts(payloads, counts, valid, true);
    assert(sent_exact(envelopes)) by {
        assert forall|i: int| 0 <= i < envelopes.len() implies (#[trigger] envelopes[i])@.len()
            == MAX_ENTITLEMENT by {
            assert(counts[i] == MAX_ENTITLEMENT);
        }
    }
    assert(views(r.unwrap().0@) == Seq::new(payloads.len(), |i: int| payloads[i].skip(16)));
}

/// The auditor where the helper may be malicious: opens the payloads, admits
/// the tags, holds each recipient to `MAX_ENTITLEMENT` payloads, and signs
/// the forwarded envelopes, one after the other. It returns the forwarded
/// envelopes and the signature. It aborts at an envelope that does not open;
/// otherwise its result is what `audit` makes of the opened payloads, one
/// for each envelope, unless the key cannot sign: as many envelopes are
/// forwarded as were received, each the rest of a payload whose tag was
/// admitted.
pub fn auditor_mal(
    envelopes: &Vec<Vec<Vec<u8>>>,
    valid: &TagSet,
    sk_enc: &Handle,
    sk_sig: &Handle,
) -> (r: Result<(Vec<Vec<u8>>, Vec<u8>), Error>)
    ensures
        (r == Err::<(Vec<Vec<u8>>, Vec<u8>), Error>(Error::EnvelopeAuth) && envelope_count(
            envelopes@,
            envelopes@.len(),
        ) > 0) || audits_and_signs_what_was_opened(r, envelopes@, valid@),
        r.is_ok() ==> sent_exact(envelopes@) && r.unwrap().0@.len() == envelope_count(
            envelopes@,
            envelopes@.len(),
        ),
        r.is_err() ==> r.unwrap_err() == Error::EnvelopeAuth || r.unwrap_err()
            == Error::Deserialization || r.unwrap_err() == Error::InvalidSecretTag
            || r.unwrap_err() == Error::DuplicateSecretTag || r.unwrap_err()
            == Error::WrongTagCount || r.unwrap_err() == Error::InvalidParameter,
{
    let (payloads, counts) = match open_all(envelopes, sk_enc) {
        Ok(opened) => opened,
        Err(e) => {
            return Err(e);
        },
    };
    let ghost opened = views(payloads@);
    proof {
        crate::tags::lemma_admission_errors(submitted_tags(opened), valid@);
    }
    let forwarded = match audit(&payloads, &counts, valid, true) {
        Ok(f) => f,
        Err(e) => {
            assert(is_signed_outcome(
                Err::<(Vec<Vec<u8>>, Vec<u8>), Error>(e),
                audit_outcome(opened, counts@, valid@, true),
            ));
            return Err(e);
        },
    };
    assert(sent_exact(envelopes@)) by {
        assert forall|i: int| 0 <= i < envelopes@.len() implies (#[trigger] envelopes@[i])@.len()
            == MAX_ENTITLEMENT by {
            assert(counts@[i] == MAX_ENTITLEMENT);
        }
    }
    assert(views(forwarded@) =~= Seq::new(opened.len(), |i: int| opened[i].skip(16)));
    let signed = concat_all(&forwarded);
    let r = match sign(sk_sig, signed.as_slice()) {
        Ok(signature) => Ok((forwarded, signature)),
        Err(e) => Err(e),
    };
    assert(is_signed_outcome(r, audit_outcome(opened, counts@, valid@, true)));
    r
}

} // verus!
