//! Shamir secret sharing over the scalar field: dealing the shares of a
//! secret, and the Lagrange coefficients at zero by which shares, or group
//! elements scaled by shares, are recombined. Both are the work of
//! `secret_sharing_and_dkg`.

use crate::error::Error;
use crate::scalar::{limbs_value, scalar_modulus, Scalar};
use ark_bls12_381::Fr;
use ark_ff::{BigInt, PrimeField};
use secret_sharing_and_dkg::common::lagrange_basis_at_0_for_all;
use secret_sharing_and_dkg::error::SSError;
use secret_sharing_and_dkg::shamir_ss::deal_secret;
use vstd::prelude::*;

verus! {

/// Identifier of a share: the point at which the sharing polynomial was
/// evaluated. It is never zero.
pub type ShareId = u16;

/// The error of `secret_sharing_and_dkg`. The library only tells it from
/// success.
#[verifier::external_type_specification]
#[verifier::external_body]
pub struct ExSSError(SSError);

/// The Lagrange coefficients at zero for the evaluation points `ids`, one
/// for each point and in their order, as fully reduced numbers.
pub uninterp spec fn lagrange_basis(ids: Seq<u16>) -> Seq<nat>;

/// Whether no identifier is zero.
pub open spec fn ids_nonzero(ids: Seq<u16>) -> bool {
    forall|i: int| 0 <= i < ids.len() ==> ids[i] != 0
}

/// Whether no identifier occurs twice.
pub open spec fn ids_distinct(ids: Seq<u16>) -> bool {
    forall|i: int, j: int| 0 <= i < j < ids.len() ==> ids[i] != ids[j]
}

/// Whether the threshold and the number of shares are ones that the dealer
/// accepts: at least two shares, and a threshold from one up to their number.
pub open spec fn dealable(threshold: int, total: int) -> bool {
    1 <= threshold <= total && 2 <= total
}

/// The product of the first `n` identifiers.
pub open spec fn ids_product(ids: Seq<u16>, n: nat) -> int
    decreases n,
{
    if n == 0 {
        1
    } else {
        ids_product(ids, (n - 1) as nat) * ids[n - 1]
    }
}

/// The product of the differences `ids[j] - ids[i]` over those of the first
/// `n` identifiers that differ from `ids[i]`.
pub open spec fn differences_product(ids: Seq<u16>, i: int, n: nat) -> int
    decreases n,
{
    if n == 0 {
        1
    } else if ids[n - 1] == ids[i] {
        differences_product(ids, i, (n - 1) as nat)
    } else {
        differences_product(ids, i, (n - 1) as nat) * (ids[n - 1] - ids[i])
    }
}

/// The congruence that fixes the Lagrange coefficient at zero of the
/// identifier `ids[i]`: the coefficient, times the identifier, times the
/// product of the differences to the other identifiers, is the product of
/// all identifiers modulo the field order.
pub open spec fn fixes_coefficient(ids: Seq<u16>, i: int, coefficient: nat) -> bool {
    (coefficient * ids[i] * differences_product(ids, i, ids.len())) % (scalar_modulus() as int)
        == ids_product(ids, ids.len()) % (scalar_modulus() as int)
}

/// The value at `x` of the polynomial with the given coefficients, lowest
/// first.
pub open spec fn evaluation(coefficients: Seq<nat>, x: nat) -> nat
    decreases coefficients.len(),
{
    if coefficients.len() == 0 {
        0
    } else {
        coefficients[0] + x * evaluation(coefficients.drop_first(), x)
    }
}

/// Whether the values are those of the polynomial at 1, 2, and so on, in the
/// field.
pub open spec fn on_polynomial(coefficients: Seq<nat>, values: Seq<nat>) -> bool {
    forall|i: int|
        0 <= i < values.len() ==> #[trigger] values[i] == evaluation(coefficients, (i + 1) as nat)
            % scalar_modulus()
}

/// Whether the values are a sharing of `secret` with the given threshold:
/// the values at 1, 2, and so on of one polynomial with `threshold`
/// coefficients whose constant term is the secret.
pub open spec fn is_sharing_of(values: Seq<nat>, secret: nat, threshold: nat) -> bool {
    exists|coefficients: Seq<nat>|
        coefficients.len() == threshold && coefficients[0] == secret && #[trigger] on_polynomial(
            coefficients,
            values,
        )
}

/// The values of dealt limbs, in order.
pub open spec fn limb_values(raw: Seq<(u16, [u64; 4])>) -> Seq<nat> {
    Seq::new(raw.len(), |i: int| limbs_value(raw[i].1@))
}

/// The values of shares, in order.
pub open spec fn share_values(shares: Seq<(ShareId, Scalar)>) -> Seq<nat> {
    Seq::new(shares.len(), |i: int| shares[i].1@)
}

/// Calls `lagrange_basis_at_0_for_all` on the scalar field. It fails exactly
/// where an identifier is zero; otherwise it returns one fully reduced
/// coefficient for each identifier. Each coefficient is the product of all
/// identifiers, divided in the field by its own identifier and by the
/// product of the differences to the identifiers that differ from it: the
/// contract states this as a congruence.
#[verifier::external_body]
fn lagrange_limbs(ids: &Vec<u16>) -> (r: Result<Vec<[u64; 4]>, SSError>)
    ensures
        r.is_ok() <==> ids_nonzero(ids@),
        r.is_ok() ==> r.unwrap()@.len() == ids@.len(),
        r.is_ok() ==> lagrange_basis(ids@).len() == ids@.len(),
        r.is_ok() ==> forall|i: int|
            0 <= i < ids@.len() ==> limbs_value(#[trigger] r.unwrap()@[i]@) == lagrange_basis(
                ids@,
            )[i] && lagrange_basis(ids@)[i] < scalar_modulus() && fixes_coefficient(
                ids@,
                i,
                lagrange_basis(ids@)[i],
            ),
{
    let basis = lagrange_basis_at_0_for_all::<Fr>(ids.clone())?;
    Ok(basis.into_iter().map(|b| b.into_bigint().0).collect())
}

/// Calls `deal_secret` with the thread-local generator of `rand`. It fails
/// exactly where the threshold is zero or above the number of shares, or
/// where fewer than two shares are asked for. Otherwise it returns that many
/// shares, numbered from one in order, each fully reduced. The shares are
/// the values at 1, 2, and so on of one polynomial with `threshold`
/// coefficients, the secret and random ones above it.
#[verifier::external_body]
fn deal_limbs(secret: &[u64; 4], threshold: u16, total: u16) -> (r: Result<
    Vec<(u16, [u64; 4])>,
    SSError,
>)
    requires
        limbs_value(secret@) < scalar_modulus(),
    ensures
        r.is_ok() <==> dealable(threshold as int, total as int),
        r.is_ok() ==> r.unwrap()@.len() == total,
        r.is_ok() ==> forall|i: int|
            0 <= i < total ==> (#[trigger] r.unwrap()@[i]).0 == i + 1 && limbs_value(
                r.unwrap()@[i].1@,
            ) < scalar_modulus(),
        r.is_ok() ==> is_sharing_of(
            limb_values(r.unwrap()@),
            limbs_value(secret@),
            threshold as nat,
        ),
{
    let mut rng = rand::thread_rng();
    let s = Fr::from_bigint(BigInt::new(*secret)).unwrap();
    let (shares, _) = deal_secret(&mut rng, s, threshold, total)?;
    Ok(shares.0.iter().map(|share| (share.id, share.share.into_bigint().0)).collect())
}

/// Whether `shares` has the shape of a dealt sharing: `total` shares numbered
/// from one in order.
pub open spec fn numbered_from_one(shares: Seq<(ShareId, Scalar)>, total: int) -> bool {
    shares.len() == total && forall|i: int|
        0 <= i < total ==> (#[trigger] shares[i]).0 == i + 1 && shares[i].1.wf()
}

/// Deals `total` shares of `secret`: the values at 1 to `total` of one
/// polynomial with `threshold` coefficients whose constant term is the
/// secret. The request is refused exactly where it is not `dealable`.
pub fn deal(secret: &Scalar, threshold: ShareId, total: ShareId) -> (r: Result<
    Vec<(ShareId, Scalar)>,
    Error,
>)
    ensures
        match r {
            Ok(shares) => dealable(threshold as int, total as int) && numbered_from_one(
                shares@,
                total as int,
            ) && is_sharing_of(share_values(shares@), secret@, threshold as nat),
            Err(e) => e == Error::InvalidParameter && !dealable(threshold as int, total as int),
        },
{
    proof {
        use_type_invariant(secret);
    }
    let limbs = secret.to_limbs();
    match deal_limbs(&limbs, threshold, total) {
        Err(_) => Err(Error::InvalidParameter),
        Ok(raw) => {
            let mut shares: Vec<(ShareId, Scalar)> = Vec::new();
            let mut i: usize = 0;
            while i < raw.len()
                invariant
                    i <= raw@.len(),
                    raw@.len() == total,
                    shares@.len() == i,
                    forall|k: int|
                        0 <= k < total ==> (#[trigger] raw@[k]).0 == k + 1 && limbs_value(
                            raw@[k].1@,
                        ) < scalar_modulus(),
                    forall|k: int|
                        0 <= k < i ==> (#[trigger] shares@[k]).0 == k + 1 && shares@[k].1.wf()
                            && shares@[k].1@ == limbs_value(raw@[k].1@),
                decreases raw@.len() - i,
            {
                let (id, value) = raw[i];
                shares.push((id, Scalar::from_reduced_limbs(value)));
                i = i + 1;
            }
            assert(share_values(shares@) =~= limb_values(raw@));
            Ok(shares)
        },
    }
}

/// The Lagrange coefficients at zero for the given identifiers, one for each
/// and in their order. The request is refused exactly where an identifier is
/// zero.
pub fn lagrange_at_zero(ids: &Vec<ShareId>) -> (r: Result<Vec<Scalar>, Error>)
    ensures
        match r {
            Ok(basis) => ids_nonzero(ids@) && basis@.len() == ids@.len() && forall|i: int|
                0 <= i < ids@.len() ==> (#[trigger] basis@[i])@ == lagrange_basis(ids@)[i]
                    && basis@[i].wf() && fixes_coefficient(ids@, i, basis@[i]@),
            Err(e) => e == Error::InvalidParameter && !ids_nonzero(ids@),
        },
{
    match lagrange_limbs(ids) {
        Err(_) => Err(Error::InvalidParameter),
        Ok(raw) => {
            let mut basis: Vec<Scalar> = Vec::new();
            let mut i: usize = 0;
            while i < raw.len()
                invariant
                    i <= raw@.len(),
                    raw@.len() == ids@.len(),
                    basis@.len() == i,
                    forall|k: int|
                        0 <= k < ids@.len() ==> limbs_value(#[trigger] raw@[k]@) == lagrange_basis(
                            ids@,
                        )[k] && lagrange_basis(ids@)[k] < scalar_modulus() && fixes_coefficient(
                            ids@,
                            k,
                            lagrange_basis(ids@)[k],
                        ),
                    forall|k: int|
                        0 <= k < i ==> (#[trigger] basis@[k])@ == lagrange_basis(ids@)[k]
                            && basis@[k].wf() && fixes_coefficient(ids@, k, basis@[k]@),
                decreases raw@.len() - i,
            {
                basis.push(Scalar::from_reduced_limbs(raw[i]));
                i = i + 1;
            }
            Ok(basis)
        },
    }
}

/// Whether no identifier in `ids` occurs twice.
pub fn all_distinct(ids: &Vec<ShareId>) -> (r: bool)
    ensures
        r == ids_distinct(ids@),
{
    let n: usize = ids.len();
    let mut j: usize = 0;
    while j < n
        invariant
            j <= n,
            n == ids@.len(),
            forall|a: int, b: int| 0 <= a < b < j ==> ids@[a] != ids@[b],
        decreases n - j,
    {
        let mut i: usize = 0;
        while i < j
            invariant
                i <= j,
                j < n,
                n == ids@.len(),
                forall|a: int| 0 <= a < i ==> ids@[a] != ids@[j as int],
            decreases j - i,
        {
            if ids[i] == ids[j] {
                return false;
            }
            i = i + 1;
        }
        j = j + 1;
    }
    true
}

} // verus!
