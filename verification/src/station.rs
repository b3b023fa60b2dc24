//! The distribution station: it collects the partial decryptions of exactly
//! as many committee members as the threshold asks for and recombines them
//! slot by slot, in the first round into intermediate values and in the
//! second into plaintexts.

use crate::error::Error;
use crate::gt::pairing_value;
use crate::scalar::Scalar;
use crate::thbgn::{
    bounded_dlog, final_decrypt, final_target, intermediate_dec, intermediate_of, round1_refusal,
    round2_refusal, IntermediateDec, PartialDecryption, PartialDecryption2, PublicParameters,
};
use vstd::prelude::*;

verus! {

/// Whether a member delivered an array of `rows` rows of `cols` slots.
pub open spec fn member_has_shape<T>(member: Seq<Vec<T>>, rows: int, cols: int) -> bool {
    member.len() == rows && forall|j: int| 0 <= j < rows ==> (#[trigger] member[j])@.len() == cols
}

/// Whether all members delivered arrays of `rows` rows of `cols` slots.
pub open spec fn has_shape<T>(members: Seq<Vec<Vec<T>>>, rows: int, cols: int) -> bool {
    forall|i: int|
        0 <= i < members.len() ==> member_has_shape((#[trigger] members[i])@, rows, cols)
}

/// The number of rows that the first member delivered.
pub open spec fn rows_of<T>(members: Seq<Vec<Vec<T>>>) -> int {
    members[0]@.len() as int
}

/// The number of slots in the first row that the first member delivered, or
/// zero where it delivered no row.
pub open spec fn cols_of<T>(members: Seq<Vec<Vec<T>>>) -> int {
    if members[0]@.len() == 0 {
        0
    } else {
        members[0]@[0]@.len() as int
    }
}

/// Why what the members delivered is refused before any slot is looked at:
/// fewer members than the threshold, or none; then more members than the
/// threshold, or arrays that are not all of the shape of the first.
pub open spec fn shape_refusal<T>(members: Seq<Vec<Vec<T>>>, threshold: usize) -> Option<Error> {
    if members.len() == 0 || members.len() < threshold {
        Some(Error::BelowThreshold)
    } else if members.len() > threshold || !has_shape(
        members,
        rows_of(members),
        cols_of(members),
    ) {
        Some(Error::InvalidParameter)
    } else {
        None
    }
}

/// What the members delivered for the slot `(j, k)`, in their order.
pub open spec fn column<T>(members: Seq<Vec<Vec<T>>>, j: int, k: int) -> Seq<T> {
    Seq::new(members.len(), |i: int| members[i]@[j]@[k])
}

/// Whether the slot `(a, b)` comes before the slot `(j, k)`, row by row.
pub open spec fn slot_before(a: int, b: int, j: int, k: int) -> bool {
    a < j || (a == j && b < k)
}

/// What the first round makes of one slot: the refusal of its list, or the
/// intermediate value that it recombines to.
pub open spec fn slot_outcome_1(slot: Seq<PartialDecryption>) -> Result<(Seq<u8>, Seq<u8>), Error> {
    match round1_refusal(slot) {
        Some(e) => Err(e),
        None => Ok(intermediate_of(slot)),
    }
}

/// What the second round makes of one slot: the refusal of its list, the
/// plaintext that the bounded search finds, or, where the search finds
/// none, the verdict that the shares are inconsistent.
pub open spec fn slot_outcome_2(pp: PublicParameters, slot: Seq<PartialDecryption2>, bound: u64)
    -> Result<nat, Error> {
    match round2_refusal(slot) {
        Some(e) => Err(e),
        None => match bounded_dlog(
            pairing_value(pp.0@, pp.1@),
            final_target(slot),
            bound as nat,
        ) {
            Some(x) => Ok(x),
            None => Err(Error::InconsistentShares),
        },
    }
}

/// Whether the first `n` intermediate values of `row` are what the first
/// round makes of the slots of row `j`.
pub open spec fn row_done_1(
    pdecs: Seq<Vec<Vec<PartialDecryption>>>,
    row: Seq<IntermediateDec>,
    j: int,
    n: int,
) -> bool {
    forall|k: int|
        0 <= k < n ==> slot_outcome_1(column(pdecs, j, k)) == Ok::<(Seq<u8>, Seq<u8>), Error>(
            ((#[trigger] row[k]).0@, row[k].1@),
        )
}

/// Whether the first `n` plaintexts of `row` are what the second round makes
/// of the slots of row `j`.
pub open spec fn row_done_2(
    pp: PublicParameters,
    pdecs2: Seq<Vec<Vec<PartialDecryption2>>>,
    bound: u64,
    row: Seq<Scalar>,
    j: int,
    n: int,
) -> bool {
    forall|k: int|
        0 <= k < n ==> slot_outcome_2(pp, column(pdecs2, j, k), bound) == Ok::<nat, Error>(
            (#[trigger] row[k])@,
        )
}

/// Whether the first round fails with `e` at the slot `(j, k)` and at no
/// slot before it.
pub open spec fn first_failure_1(
    pdecs: Seq<Vec<Vec<PartialDecryption>>>,
    j: int,
    k: int,
    e: Error,
) -> bool {
    0 <= j < rows_of(pdecs) && 0 <= k < cols_of(pdecs) && slot_outcome_1(column(pdecs, j, k))
        == Err::<(Seq<u8>, Seq<u8>), Error>(e) && forall|a: int, b: int|
        0 <= a < rows_of(pdecs) && 0 <= b < cols_of(pdecs) && slot_before(a, b, j, k)
            ==> (#[trigger] slot_outcome_1(column(pdecs, a, b))).is_ok()
}

/// Whether the second round fails with `e` at the slot `(j, k)` and at no
/// slot before it.
pub open spec fn first_failure_2(
    pp: PublicParameters,
    pdecs2: Seq<Vec<Vec<PartialDecryption2>>>,
    bound: u64,
    j: int,
    k: int,
    e: Error,
) -> bool {
    0 <= j < rows_of(pdecs2) && 0 <= k < cols_of(pdecs2) && slot_outcome_2(
        pp,
        column(pdecs2, j, k),
        bound,
    ) == Err::<nat, Error>(e) && forall|a: int, b: int|
        0 <= a < rows_of(pdecs2) && 0 <= b < cols_of(pdecs2) && slot_before(a, b, j, k)
            ==> (#[trigger] slot_outcome_2(pp, column(pdecs2, a, b), bound)).is_ok()
}

/// Checks the number of members and the shape of what they delivered, and
/// returns the numbers of rows and of slots in a row.
fn check_shape<T>(members: &Vec<Vec<Vec<T>>>, threshold: usize) -> (r: Result<
    (usize, usize),
    Error,
>)
    ensures
        match r {
            Ok((rows, cols)) => shape_refusal(members@, threshold).is_none() && rows == rows_of(
                members@,
            ) && cols == cols_of(members@) && has_shape(members@, rows as int, cols as int),
            Err(e) => shape_refusal(members@, threshold) == Some(e),
        },
{
    let n: usize = members.len();
    if n == 0 || n < threshold {
        return Err(Error::BelowThreshold);
    }
    if n > threshold {
        return Err(Error::InvalidParameter);
    }
    let rows: usize = members[0].len();
    let cols: usize = if rows == 0 {
        0
    } else {
        members[0][0].len()
    };
    let mut i: usize = 0;
    while i < n
        invariant
            i <= n,
            n == members@.len(),
            n == threshold,
            n > 0,
            rows == rows_of(members@),
            cols == cols_of(members@),
            forall|a: int|
                0 <= a < i ==> member_has_shape((#[trigger] members@[a])@, rows as int, cols as int),
        decreases n - i,
    {
        if members[i].len() != rows {
            assert(!member_has_shape(members@[i as int]@, rows as int, cols as int));
            return Err(Error::InvalidParameter);
        }
        let mut j: usize = 0;
        while j < rows
            invariant
                j <= rows,
                i < n,
                n == members@.len(),
                n == threshold,
                rows == rows_of(members@),
                cols == cols_of(members@),
                members@[i as int]@.len() == rows,
                forall|b: int| 0 <= b < j ==> (#[trigger] members@[i as int]@[b])@.len() == cols,
            decreases rows - j,
        {
            if members[i][j].len() != cols {
                assert(members@[i as int]@[j as int]@.len() != cols);
                assert(!member_has_shape(members@[i as int]@, rows as int, cols as int));
                return Err(Error::InvalidParameter);
            }
            j = j + 1;
        }
        i = i + 1;
    }
    Ok((rows, cols))
}

/// Gathers what the members delivered for one slot.
fn gather<T: Copy>(members: &Vec<Vec<Vec<T>>>, j: usize, k: usize) -> (r: Vec<T>)
    requires
        j < rows_of(members@),
        k < cols_of(members@),
        members@.len() > 0,
        has_shape(members@, rows_of(members@), cols_of(members@)),
    ensures
        r@ == column(members@, j as int, k as int),
{
    let n: usize = members.len();
    let mut slot: Vec<T> = Vec::new();
    let mut i: usize = 0;
    while i < n
        invariant
            i <= n,
            n == members@.len(),
            j < rows_of(members@),
            k < cols_of(members@),
            has_shape(members@, rows_of(members@), cols_of(members@)),
            slot@.len() == i,
            forall|a: int| 0 <= a < i ==> slot@[a] == members@[a]@[j as int]@[k as int],
        decreases n - i,
    {
        assert(member_has_shape(members@[i as int]@, rows_of(members@), cols_of(members@)));
        assert(members@[i as int]@[j as int]@.len() == cols_of(members@));
        slot.push(members[i][j][k]);
        i = i + 1;
    }
    assert(slot@ =~= column(members@, j as int, k as int));
    slot
}

/// The first distribution round of the two-level scheme: recombines the
/// first-round partial decryptions of exactly `threshold` committee members
/// into one intermediate value for each slot. The first slot, row by row,
/// whose list is refused decides the error.
pub fn distribution_station_1(
    pp: PublicParameters,
    pdecs: &Vec<Vec<Vec<PartialDecryption>>>,
    threshold: usize,
    bound: u64,
) -> (r: Result<Vec<Vec<IntermediateDec>>, Error>)
    ensures
        match r {
            Ok(idecs) => shape_refusal(pdecs@, threshold).is_none() && idecs@.len() == rows_of(
                pdecs@,
            ) && forall|j: int|
                0 <= j < idecs@.len() ==> (#[trigger] idecs@[j])@.len() == cols_of(pdecs@)
                    && row_done_1(pdecs@, idecs@[j]@, j, cols_of(pdecs@)),
            Err(e) => shape_refusal(pdecs@, threshold) == Some(e) || (shape_refusal(
                pdecs@,
                threshold,
            ).is_none() && exists|j: int, k: int| first_failure_1(pdecs@, j, k, e)),
        },
{
    let (rows, cols) = match check_shape(pdecs, threshold) {
        Ok(shape) => shape,
        Err(e) => {
            return Err(e);
        },
    };
    let mut idecs: Vec<Vec<IntermediateDec>> = Vec::new();
    let mut j: usize = 0;
    while j < rows
        invariant
            j <= rows,
            pdecs@.len() > 0,
            shape_refusal(pdecs@, threshold).is_none(),
            rows == rows_of(pdecs@),
            cols == cols_of(pdecs@),
            has_shape(pdecs@, rows as int, cols as int),
            idecs@.len() == j,
            forall|a: int|
                0 <= a < j ==> (#[trigger] idecs@[a])@.len() == cols && row_done_1(
                    pdecs@,
                    idecs@[a]@,
                    a,
                    cols as int,
                ),
        decreases rows - j,
    {
        let mut row: Vec<IntermediateDec> = Vec::new();
        let mut k: usize = 0;
        while k < cols
            invariant
                k <= cols,
                j < rows,
                pdecs@.len() > 0,
                shape_refusal(pdecs@, threshold).is_none(),
                rows == rows_of(pdecs@),
                cols == cols_of(pdecs@),
                has_shape(pdecs@, rows as int, cols as int),
                idecs@.len() == j,
                forall|a: int|
                    0 <= a < j ==> (#[trigger] idecs@[a])@.len() == cols && row_done_1(
                        pdecs@,
                        idecs@[a]@,
                        a,
                        cols as int,
                    ),
                row@.len() == k,
                row_done_1(pdecs@, row@, j as int, k as int),
            decreases cols - k,
        {
            let slot = gather(pdecs, j, k);
            match intermediate_dec(pp, slot.as_slice(), bound) {
                Ok(idec) => {
                    let ghost before = row@;
                    row.push(idec);
                    assert forall|b: int| 0 <= b < k + 1 implies slot_outcome_1(
                        column(pdecs@, j as int, b),
                    ) == Ok::<(Seq<u8>, Seq<u8>), Error>(((#[trigger] row@[b]).0@, row@[b].1@)) by {
                        if b < k {
                            assert(row@[b] == before[b]);
                        }
                    }
                },
                Err(e) => {
                    assert forall|a: int, b: int|
                        0 <= a < rows_of(pdecs@) && 0 <= b < cols_of(pdecs@) && slot_before(
                            a,
                            b,
                            j as int,
                            k as int,
                        ) implies (#[trigger] slot_outcome_1(column(pdecs@, a, b))).is_ok() by {
                        if a < j {
                            assert(row_done_1(pdecs@, idecs@[a]@, a, cols as int));
                            assert(slot_outcome_1(column(pdecs@, a, b)) == Ok::<
                                (Seq<u8>, Seq<u8>),
                                Error,
                            >((idecs@[a]@[b].0@, idecs@[a]@[b].1@)));
                        } else {
                            assert(slot_outcome_1(column(pdecs@, j as int, b)) == Ok::<
                                (Seq<u8>, Seq<u8>),
                                Error,
                            >((row@[b].0@, row@[b].1@)));
                        }
                    }
                    assert(first_failure_1(pdecs@, j as int, k as int, e));
                    return Err(e);
                },
            }
            k = k + 1;
        }
        idecs.push(row);
        j = j + 1;
    }
    Ok(idecs)
}

/// The second distribution round of the two-level scheme: recombines the
/// second-round partial decryptions of exactly `threshold` committee members
/// and recovers the plaintext of each slot by the bounded search. A slot in
/// which the search finds nothing counts as inconsistent shares. The first
/// slot, row by row, that fails decides the error.
pub fn distribution_station_2(
    pp: PublicParameters,
    pdecs2: &Vec<Vec<Vec<PartialDecryption2>>>,
    threshold: usize,
    bound: u64,
) -> (r: Result<Vec<Vec<Scalar>>, Error>)
    ensures
        match r {
            Ok(outs) => shape_refusal(pdecs2@, threshold).is_none() && outs@.len() == rows_of(
                pdecs2@,
            ) && forall|j: int|
                0 <= j < outs@.len() ==> (#[trigger] outs@[j])@.len() == cols_of(pdecs2@)
                    && row_done_2(pp, pdecs2@, bound, outs@[j]@, j, cols_of(pdecs2@)),
            Err(e) => shape_refusal(pdecs2@, threshold) == Some(e) || (shape_refusal(
                pdecs2@,
                threshold,
            ).is_none() && exists|j: int, k: int| first_failure_2(pp, pdecs2@, bound, j, k, e)),
        },
{
    let (rows, cols) = match check_shape(pdecs2, threshold) {
        Ok(shape) => shape,
        Err(e) => {
            return Err(e);
        },
    };
    let mut outs: Vec<Vec<Scalar>> = Vec::new();
    let mut j: usize = 0;
    while j < rows
        invariant
            j <= rows,
            pdecs2@.len() > 0,
            shape_refusal(pdecs2@, threshold).is_none(),
            rows == rows_of(pdecs2@),
            cols == cols_of(pdecs2@),
            has_shape(pdecs2@, rows as int, cols as int),
            outs@.len() == j,
            forall|a: int|
                0 <= a < j ==> (#[trigger] outs@[a])@.len() == cols && row_done_2(
                    pp,
                    pdecs2@,
                    bound,
                    outs@[a]@,
                    a,
                    cols as int,
                ),
        decreases rows - j,
    {
        let mut row: Vec<Scalar> = Vec::new();
        let mut k: usize = 0;
        while k < cols
            invariant
                k <= cols,
                j < rows,
                pdecs2@.len() > 0,
                shape_refusal(pdecs2@, threshold).is_none(),
                rows == rows_of(pdecs2@),
                cols == cols_of(pdecs2@),
                has_shape(pdecs2@, rows as int, cols as int),
                outs@.len() == j,
                forall|a: int|
                    0 <= a < j ==> (#[trigger] outs@[a])@.len() == cols && row_done_2(
                        pp,
                        pdecs2@,
                        bound,
                        outs@[a]@,
                        a,
                        cols as int,
                    ),
                row@.len() == k,
                row_done_2(pp, pdecs2@, bound, row@, j as int, k as int),
            decreases cols - k,
        {
            let slot = gather(pdecs2, j, k);
            match final_decrypt(pp, slot.as_slice(), bound) {
                Ok(x) => {
                    let ghost before = row@;
                    row.push(x);
                    assert forall|b: int| 0 <= b < k + 1 implies slot_outcome_2(
                        pp,
                        column(pdecs2@, j as int, b),
                        bound,
                    ) == Ok::<nat, Error>((#[trigger] row@[b])@) by {
                        if b < k {
                            assert(row@[b] == before[b]);
                        }
                    }
                },
                Err(e) => {
                    let verdict = settle(e);
                    assert forall|a: int, b: int|
                        0 <= a < rows_of(pdecs2@) && 0 <= b < cols_of(pdecs2@) && slot_before(
                            a,
                            b,
                            j as int,
                            k as int,
                        ) implies (#[trigger] slot_outcome_2(
                        pp,
                        column(pdecs2@, a, b),
                        bound,
                    )).is_ok() by {
                        if a < j {
                            assert(row_done_2(pp, pdecs2@, bound, outs@[a]@, a, cols as int));
                            assert(slot_outcome_2(pp, column(pdecs2@, a, b), bound) == Ok::<
                                nat,
                                Error,
                            >(outs@[a]@[b]@));
                        } else {
                            assert(slot_outcome_2(pp, column(pdecs2@, j as int, b), bound) == Ok::<
                                nat,
                                Error,
                            >(row@[b]@));
                        }
                    }
                    assert(first_failure_2(pp, pdecs2@, bound, j as int, k as int, verdict));
                    return Err(verdict);
                },
            }
            k = k + 1;
        }
        outs.push(row);
        j = j + 1;
    }
    Ok(outs)
}

/// The error that the station reports for an error of threshold
/// decryption: a search that found nothing means that the shares were
/// inconsistent, since a plaintext within the bound was promised.
pub fn settle(e: Error) -> (r: Error)
    ensures
        r == (if e == Error::DLogNotFound {
            Error::InconsistentShares
        } else {
            e
        }),
{
    match e {
        Error::DLogNotFound => Error::InconsistentShares,
        _ => e,
    }
}

/// Why the partial decryptions of the single-level scheme are refused
/// before they are recombined: fewer than the threshold, or none; then more
/// than the threshold.
pub open spec fn count_refusal(count: nat, threshold: usize) -> Option<Error> {
    if count == 0 || count < threshold {
        Some(Error::BelowThreshold)
    } else if count > threshold {
        Some(Error::InvalidParameter)
    } else {
        None
    }
}

/// What the station of the single-level scheme makes of a list of partial
/// decryptions.
pub open spec fn single_outcome(
    ct: crate::thelgamal::Ciphertext,
    pdecs: Seq<crate::thelgamal::PartialDecryption>,
    threshold: usize,
    bound: u64,
) -> Result<nat, Error> {
    match count_refusal(pdecs.len(), threshold) {
        Some(e) => Err(e),
        None => match crate::thelgamal::refusal(pdecs) {
            Some(e) => Err(e),
            None => match crate::thelgamal::bounded_dlog(
                crate::g1::g1_generator_encoding(),
                crate::thelgamal::final_target(ct, pdecs),
                bound as nat,
            ) {
                Some(x) => Ok(x),
                None => Err(Error::InconsistentShares),
            },
        },
    }
}

/// The distribution station of the single-level scheme: recombines the
/// partial decryptions of exactly `threshold` committee members and recovers
/// the plaintext of the sum by the bounded search. A search that finds
/// nothing counts as inconsistent shares.
pub fn distribution_station_single(
    pp: crate::thelgamal::PublicParameters,
    ctxt_out: crate::thelgamal::Ciphertext,
    pdecs: &Vec<crate::thelgamal::PartialDecryption>,
    threshold: usize,
    bound: u64,
) -> (r: Result<Scalar, Error>)
    ensures
        match r {
            Ok(x) => single_outcome(ctxt_out, pdecs@, threshold, bound) == Ok::<nat, Error>(x@),
            Err(e) => single_outcome(ctxt_out, pdecs@, threshold, bound) == Err::<nat, Error>(e),
        },
{
    let n: usize = pdecs.len();
    if n == 0 || n < threshold {
        return Err(Error::BelowThreshold);
    }
    if n > threshold {
        return Err(Error::InvalidParameter);
    }
    match crate::thelgamal::final_decrypt(pp, ctxt_out, pdecs.as_slice(), bound) {
        Ok(x) => Ok(x),
        Err(e) => Err(settle(e)),
    }
}

} // verus!
