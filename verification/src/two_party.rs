//! The two-party baseline: a recipient splits its claim into two additive
//! shares, one for each party. The helper receives its share in an envelope
//! and adds up the shares of all recipients; the sums of the two parties add
//! up to the number of claims.

use crate::bytes::chunk;
use crate::envelope::{open_as_helper, seal_for_auditor, seal_for_helper};
use crate::error::Error;
use crate::period::{stale, PeriodClock};
use crate::recipient::{check_tagged_claim, tagged_claim_refusal};
use crate::scalar::{le_value, scalar_modulus, sub_mod, Scalar, SCALAR_BYTES};
use crate::signature::sign;
use crate::tags::{join_tagged, SecretTag};
use crate::MAX_ENTITLEMENT;
use tink_core::keyset::Handle;
use vstd::prelude::*;

verus! {

/// The sum of the first `n` numbers modulo the field order, added up from
/// zero in order.
pub open spec fn sum_mod(values: Seq<nat>, n: nat) -> nat
    decreases n,
{
    if n == 0 {
        0
    } else {
        (sum_mod(values, (n - 1) as nat) + values[n - 1]) % scalar_modulus()
    }
}

/// The numbers of a list of scalars, in order.
pub open spec fn values_of(shares: Seq<Scalar>) -> Seq<nat> {
    Seq::new(shares.len(), |i: int| shares[i]@)
}

/// Splits a claim into the given share and the share that completes it.
pub fn split_claim_with(b: u64, share_0: Scalar) -> (r: (Scalar, Scalar))
    ensures
        r.0 == share_0,
        r.1@ == sub_mod(b as nat, share_0@),
        (r.0@ + r.1@) % scalar_modulus() == b,
{
    proof {
        use_type_invariant(&share_0);
    }
    let share_1 = Scalar::from_u64(b).minus(&share_0);
    (share_0, share_1)
}

/// Splits a claim into two additive shares, the first of them drawn at
/// random.
pub fn split_claim(b: u64) -> (r: (Scalar, Scalar))
    ensures
        (r.0@ + r.1@) % scalar_modulus() == b,
{
    split_claim_with(b, Scalar::random())
}

/// Adds up shares in the field.
pub fn fold_shares(shares: &Vec<Scalar>) -> (r: Scalar)
    ensures
        r@ == sum_mod(values_of(shares@), shares@.len()),
{
    let n: usize = shares.len();
    let mut acc = Scalar::from_u64(0);
    let mut i: usize = 0;
    while i < n
        invariant
            i <= n,
            n == shares@.len(),
            acc@ == sum_mod(values_of(shares@), i as nat),
        decreases n - i,
    {
        acc = acc.plus(&shares[i]);
        i = i + 1;
    }
    acc
}

/// The sums of the two parties add up to the sum of the claims: where each
/// pair of shares adds up to its claim, the two sums of shares add up to the
/// sum of the claims, all in the field.
pub proof fn lemma_sums_of_shares_add_up(
    first: Seq<nat>,
    second: Seq<nat>,
    claims: Seq<nat>,
    n: nat,
)
    requires
        n <= first.len(),
        n <= second.len(),
        n <= claims.len(),
        forall|i: int|
            0 <= i < n ==> (#[trigger] first[i] + second[i]) % scalar_modulus() == claims[i]
                % scalar_modulus(),
    ensures
        (sum_mod(first, n) + sum_mod(second, n)) % scalar_modulus() == sum_mod(claims, n),
    decreases n,
{
    if n > 0 {
        let m = (n - 1) as nat;
        lemma_sums_of_shares_add_up(first, second, claims, m);
        let r = scalar_modulus() as int;
        let a = sum_mod(first, m) as int;
        let b = sum_mod(second, m) as int;
        let c = sum_mod(claims, m) as int;
        let x = first[n - 1] as int;
        let y = second[n - 1] as int;
        let z = claims[n - 1] as int;
        assert((first[n - 1] + second[n - 1]) % scalar_modulus() == claims[n - 1]
            % scalar_modulus());
        assert((((a + x) % r) + ((b + y) % r)) % r == (c + z) % r) by (nonlinear_arith)
            requires
                r > 0,
                (a + b) % r == c,
                (x + y) % r == z % r,
        {
            let q1 = (a + x) / r;
            let q2 = (b + y) / r;
            let q3 = (a + b) / r;
            let q4 = (x + y) / r;
            let q5 = z / r;
            assert((a + x) % r == (a + x) - q1 * r);
            assert((b + y) % r == (b + y) - q2 * r);
            assert(c == (a + b) - q3 * r);
            assert((x + y) - q4 * r == z - q5 * r);
            let lhs = ((a + x) % r) + ((b + y) % r);
            assert(lhs == (c + z) + (q3 + q4 - q5 - q1 - q2) * r);
            assert(((c + z) + (q3 + q4 - q5 - q1 - q2) * r) % r == (c + z) % r) by {
                vstd::arithmetic::div_mod::lemma_mod_multiples_vanish(
                    q3 + q4 - q5 - q1 - q2,
                    c + z,
                    r,
                );
            }
        }
    }
}

/// The recipient of the two-party baseline: one envelope for the helper with
/// the first share of the claim, bound to the period, and the second share
/// for the other party.
pub fn recipient_2pc(b: u64, id: u16, pk_helper: &Handle) -> (r: Result<(Vec<u8>, Scalar), Error>)
    ensures
        b > 1 ==> r.is_err(),
        r.is_err() ==> r.unwrap_err() == Error::InvalidParameter,
{
    if b > 1 {
        return Err(Error::InvalidParameter);
    }
    let (share_0, share_1) = split_claim(b);
    let bytes = share_0.to_bytes();
    match seal_for_helper(pk_helper, bytes.as_slice(), id) {
        Ok(envelope) => Ok((envelope, share_1)),
        Err(e) => Err(e),
    }
}

/// The recipient of the two-party baseline where tags are audited: the
/// first share of the claim is sealed for the helper once for each secret
/// tag, and each envelope is wrapped with its tag for the auditor. It
/// returns the envelopes for the helper and those for the auditor,
/// `MAX_ENTITLEMENT` of each and in the order of the tags, and the second
/// share.
pub fn recipient_2pc_tagged(
    b: u64,
    id: u16,
    secret_tags: &Vec<SecretTag>,
    pk_helper: &Handle,
    pk_auditor: &Handle,
) -> (r: Result<(Vec<Vec<u8>>, Vec<Vec<u8>>, Scalar), Error>)
    ensures
        match r {
            Ok((for_helper, for_auditor, share_1)) => tagged_claim_refusal(
                b,
                secret_tags@,
            ).is_none() && for_helper@.len() == MAX_ENTITLEMENT && for_auditor@.len()
                == MAX_ENTITLEMENT,
            Err(e) => match tagged_claim_refusal(b, secret_tags@) {
                Some(why) => e == why,
                None => e == Error::InvalidParameter,
            },
        },
{
    match check_tagged_claim(b, secret_tags) {
        Ok(()) => {},
        Err(e) => {
            return Err(e);
        },
    }
    let (share_0, share_1) = split_claim(b);
    let bytes = share_0.to_bytes();
    let mut for_helper: Vec<Vec<u8>> = Vec::new();
    let mut for_auditor: Vec<Vec<u8>> = Vec::new();
    let mut k: usize = 0;
    while k < MAX_ENTITLEMENT
        invariant
            k <= MAX_ENTITLEMENT,
            tagged_claim_refusal(b, secret_tags@).is_none(),
            for_helper@.len() == k,
            for_auditor@.len() == k,
        decreases MAX_ENTITLEMENT - k,
    {
        let envelope = match seal_for_helper(pk_helper, bytes.as_slice(), id) {
            Ok(envelope) => envelope,
            Err(e) => {
                return Err(e);
            },
        };
        let tagged = join_tagged(&secret_tags[k], envelope.as_slice());
        let wrapped = match seal_for_auditor(pk_auditor, tagged.as_slice()) {
            Ok(wrapped) => wrapped,
            Err(e) => {
                return Err(e);
            },
        };
        for_helper.push(envelope);
        for_auditor.push(wrapped);
        k = k + 1;
    }
    Ok((for_helper, for_auditor, share_1))
}

/// Decodes the share in an opened envelope. A plaintext of another length
/// than that of a scalar, or one whose number is not below the field order,
/// is refused.
pub fn decode_share(plaintext: &[u8]) -> (r: Result<Scalar, Error>)
    ensures
        match r {
            Ok(share) => plaintext@.len() == SCALAR_BYTES && share@ == le_value(plaintext@),
            Err(e) => e == Error::Deserialization && (plaintext@.len() != SCALAR_BYTES
                || le_value(plaintext@) >= scalar_modulus()),
        },
{
    if plaintext.len() != SCALAR_BYTES {
        return Err(Error::Deserialization);
    }
    let bytes: [u8; 32] = chunk(plaintext, 0);
    assert(bytes@ =~= plaintext@);
    match Scalar::from_bytes(&bytes) {
        Some(share) => Ok(share),
        None => Err(Error::Deserialization),
    }
}

/// Whether `sum` is what the helper of the two-party baseline publishes for
/// `count` envelopes: the sum in the field of some shares that the envelopes
/// opened to, one for each.
pub open spec fn publishes_sum(sum: Scalar, count: nat) -> bool {
    exists|shares: Seq<Scalar>|
        shares.len() == count && sum@ == #[trigger] sum_mod(values_of(shares), shares.len())
}

/// The helper of the two-party baseline. It refuses a stale period, opens
/// the envelope of each recipient, adds up the shares inside, and signs the
/// encoding of the sum. What it publishes is the sum of the shares that the
/// envelopes opened to, one for each. The period is recorded only where the
/// helper publishes.
pub fn helper_2pc(
    clock: &mut PeriodClock,
    envelopes: &Vec<Vec<u8>>,
    id: u16,
    sk_enc: &Handle,
    sk_sig: &Handle,
) -> (r: Result<(Scalar, Vec<u8>), Error>)
    ensures
        match r {
            Ok((sum, signature)) => !stale(id, old(clock)@) && final(clock)@ == id
                && publishes_sum(sum, envelopes@.len()),
            Err(e) => final(clock)@ == old(clock)@ && (if stale(id, old(clock)@) {
                e == Error::StalePeriod
            } else {
                e == Error::EnvelopeAuth || e == Error::Deserialization || e
                    == Error::InvalidParameter
            }),
        },
{
    match clock.check(id) {
        Ok(()) => {},
        Err(e) => {
            return Err(e);
        },
    }
    let ghost start = clock@;
    let n: usize = envelopes.len();
    let mut shares: Vec<Scalar> = Vec::new();
    let mut i: usize = 0;
    while i < n
        invariant
            i <= n,
            n == envelopes@.len(),
            shares@.len() == i,
            clock@ == start,
            !stale(id, start),
        decreases n - i,
    {
        let plaintext = match open_as_helper(sk_enc, envelopes[i].as_slice(), id) {
            Ok(p) => p,
            Err(e) => {
                return Err(e);
            },
        };
        match decode_share(plaintext.as_slice()) {
            Ok(share) => {
                shares.push(share);
            },
            Err(e) => {
                return Err(e);
            },
        }
        i = i + 1;
    }
    let sum = fold_shares(&shares);
    assert(publishes_sum(sum, envelopes@.len())) by {
        assert(sum@ == sum_mod(values_of(shares@), shares@.len()));
    }
    let data = sum.to_bytes();
    let signature = match sign(sk_sig, data.as_slice()) {
        Ok(s) => s,
        Err(e) => {
            return Err(e);
        },
    };
    match clock.advance(id) {
        Ok(()) => Ok((sum, signature)),
        Err(e) => Err(e),
    }
}

} // verus!
