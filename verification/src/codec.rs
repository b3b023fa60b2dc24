//! The byte layouts of ciphertexts: the compressed encodings of the
//! components, concatenated in order. Decoders accept exactly the expected
//! length and refuse bytes that hold no group element.

use crate::bytes::{append_array, chunk};
use crate::error::Error;
use crate::g1::{g1_canonical, g1_wf, G1, G1_BYTES};
use crate::g2::{g2_canonical, g2_wf, G2, G2_BYTES};
use crate::gt::{gt_canonical, gt_wf, GT, GT_BYTES};
use crate::thbgn::{Ciphertext1, CiphertextT};
use crate::INFO_LEN;
use vstd::prelude::*;

verus! {

/// Length of an encoded level-1 ciphertext.
pub const CTXT_1_BYTES: usize = 2 * G1_BYTES + 2 * G2_BYTES;

/// Length of an encoded target-level ciphertext.
pub const CTXT_T_BYTES: usize = 4 * GT_BYTES;

/// Length of a recipient's payload of `INFO_LEN` level-1 ciphertexts.
pub const PAYLOAD_BYTES: usize = INFO_LEN * CTXT_1_BYTES;

/// The four components, concatenated in order.
pub open spec fn concat4(parts: (Seq<u8>, Seq<u8>, Seq<u8>, Seq<u8>)) -> Seq<u8> {
    parts.0 + parts.1 + parts.2 + parts.3
}

/// Whether the four components are encodings of two elements of each source
/// group.
pub open spec fn ctxt_1_wf(parts: (Seq<u8>, Seq<u8>, Seq<u8>, Seq<u8>)) -> bool {
    g1_wf(parts.0) && g1_wf(parts.1) && g2_wf(parts.2) && g2_wf(parts.3)
}

/// Whether the four components are encodings of elements of the target
/// group.
pub open spec fn ctxt_t_wf(parts: (Seq<u8>, Seq<u8>, Seq<u8>, Seq<u8>)) -> bool {
    gt_wf(parts.0) && gt_wf(parts.1) && gt_wf(parts.2) && gt_wf(parts.3)
}

/// The level-1 ciphertext that `bytes` decode to, if they have the exact
/// length and each part holds a group element.
pub open spec fn decoded_ctxt_1(bytes: Seq<u8>) -> Option<(Seq<u8>, Seq<u8>, Seq<u8>, Seq<u8>)> {
    if bytes.len() != CTXT_1_BYTES {
        None
    } else {
        match (
            g1_canonical(bytes.subrange(0, 48)),
            g1_canonical(bytes.subrange(48, 96)),
            g2_canonical(bytes.subrange(96, 192)),
            g2_canonical(bytes.subrange(192, 288)),
        ) {
            (Some(c1), Some(c2), Some(c3), Some(c4)) => Some((c1, c2, c3, c4)),
            _ => None,
        }
    }
}

/// The target-level ciphertext that `bytes` decode to, if they have the
/// exact length and each part holds a group element.
pub open spec fn decoded_ctxt_t(bytes: Seq<u8>) -> Option<(Seq<u8>, Seq<u8>, Seq<u8>, Seq<u8>)> {
    if bytes.len() != CTXT_T_BYTES {
        None
    } else {
        match (
            gt_canonical(bytes.subrange(0, 576)),
            gt_canonical(bytes.subrange(576, 1152)),
            gt_canonical(bytes.subrange(1152, 1728)),
            gt_canonical(bytes.subrange(1728, 2304)),
        ) {
            (Some(c1), Some(c2), Some(c3), Some(c4)) => Some((c1, c2, c3, c4)),
            _ => None,
        }
    }
}

/// The encodings of the first `n` level-1 ciphertexts of a list, one after
/// the other.
pub open spec fn payload_bytes(ctxts: Seq<Ciphertext1>, n: nat) -> Seq<u8>
    decreases n,
{
    if n == 0 {
        Seq::<u8>::empty()
    } else {
        payload_bytes(ctxts, (n - 1) as nat) + concat4(ctxts[n - 1]@)
    }
}

/// The part of a payload that holds its `i`-th ciphertext.
pub open spec fn payload_part(bytes: Seq<u8>, i: int) -> Seq<u8> {
    bytes.subrange(i * CTXT_1_BYTES, (i + 1) * CTXT_1_BYTES)
}

/// Whether `bytes` are a payload: the exact length, and `INFO_LEN` parts
/// that each decode to a level-1 ciphertext.
pub open spec fn payload_decodes(bytes: Seq<u8>) -> bool {
    bytes.len() == PAYLOAD_BYTES && forall|i: int|
        0 <= i < INFO_LEN ==> decoded_ctxt_1(#[trigger] payload_part(bytes, i)).is_some()
}

/// The encoding of a level-1 ciphertext: its components in order.
pub fn ctxt_1_to_bytes(ctxt: &Ciphertext1) -> (bytes: Vec<u8>)
    ensures
        bytes@ == concat4(ctxt@),
        bytes@.len() == CTXT_1_BYTES,
{
    let mut bytes: Vec<u8> = Vec::new();
    let c1 = ctxt.0.0.to_bytes();
    let c2 = ctxt.0.1.to_bytes();
    let c3 = ctxt.0.2.to_bytes();
    let c4 = ctxt.0.3.to_bytes();
    append_array(&mut bytes, &c1);
    append_array(&mut bytes, &c2);
    append_array(&mut bytes, &c3);
    append_array(&mut bytes, &c4);
    assert(bytes@ =~= concat4(ctxt@));
    bytes
}

/// The encoding of a target-level ciphertext: its components in order.
pub fn ctxt_t_to_bytes(ctxt: &CiphertextT) -> (bytes: Vec<u8>)
    ensures
        bytes@ == concat4(ctxt@),
        bytes@.len() == CTXT_T_BYTES,
{
    let mut bytes: Vec<u8> = Vec::new();
    let c1 = ctxt.0.0.to_bytes();
    let c2 = ctxt.0.1.to_bytes();
    let c3 = ctxt.0.2.to_bytes();
    let c4 = ctxt.0.3.to_bytes();
    append_array(&mut bytes, &c1);
    append_array(&mut bytes, &c2);
    append_array(&mut bytes, &c3);
    append_array(&mut bytes, &c4);
    assert(bytes@ =~= concat4(ctxt@));
    bytes
}

/// The encodings of the first `n` ciphertexts of a row, one after the other.
pub open spec fn row_bytes(row: Seq<CiphertextT>, n: nat) -> Seq<u8>
    decreases n,
{
    if n == 0 {
        Seq::<u8>::empty()
    } else {
        row_bytes(row, (n - 1) as nat) + concat4(row[n - 1]@)
    }
}

/// The encodings of the first `n` rows of an array of target-level
/// ciphertexts, row by row.
pub open spec fn rows_bytes(rows: Seq<Vec<CiphertextT>>, n: nat) -> Seq<u8>
    decreases n,
{
    if n == 0 {
        Seq::<u8>::empty()
    } else {
        rows_bytes(rows, (n - 1) as nat) + row_bytes(rows[n - 1]@, rows[n - 1]@.len())
    }
}

/// The canonical bytes of an array of target-level ciphertexts: the
/// encodings of its ciphertexts, row by row. These are the bytes that the
/// helper signs and that a committee member verifies.
pub fn ctxts_t_to_bytes(rows: &Vec<Vec<CiphertextT>>) -> (bytes: Vec<u8>)
    ensures
        bytes@ == rows_bytes(rows@, rows@.len()),
{
    let n: usize = rows.len();
    let mut bytes: Vec<u8> = Vec::new();
    let mut j: usize = 0;
    while j < n
        invariant
            j <= n,
            n == rows@.len(),
            bytes@ == rows_bytes(rows@, j as nat),
        decreases n - j,
    {
        let m: usize = rows[j].len();
        let ghost before = bytes@;
        let mut k: usize = 0;
        while k < m
            invariant
                k <= m,
                j < n,
                n == rows@.len(),
                m == rows@[j as int]@.len(),
                bytes@ == before + row_bytes(rows@[j as int]@, k as nat),
            decreases m - k,
        {
            let part = ctxt_t_to_bytes(&rows[j][k]);
            crate::bytes::append_slice(&mut bytes, part.as_slice());
            assert(bytes@ =~= before + row_bytes(rows@[j as int]@, (k + 1) as nat));
            k = k + 1;
        }
        j = j + 1;
    }
    bytes
}

/// The bytes of a recipient's payload: the encodings of its level-1
/// ciphertexts, one after the other.
pub fn ctxts_1_to_bytes(ctxts: &Vec<Ciphertext1>) -> (bytes: Vec<u8>)
    ensures
        bytes@ == payload_bytes(ctxts@, ctxts@.len()),
{
    let n: usize = ctxts.len();
    let mut bytes: Vec<u8> = Vec::new();
    let mut i: usize = 0;
    while i < n
        invariant
            i <= n,
            n == ctxts@.len(),
            bytes@ == payload_bytes(ctxts@, i as nat),
        decreases n - i,
    {
        let part = ctxt_1_to_bytes(&ctxts[i]);
        crate::bytes::append_slice(&mut bytes, part.as_slice());
        i = i + 1;
    }
    bytes
}

/// Decodes the level-1 ciphertext that starts at `start`.
fn read_ctxt_1(bytes: &[u8], start: usize) -> (r: Result<Ciphertext1, Error>)
    requires
        start + CTXT_1_BYTES <= bytes@.len(),
    ensures
        match r {
            Ok(ct) => decoded_ctxt_1(bytes@.subrange(start as int, start + CTXT_1_BYTES)) == Some(
                ct@,
            ),
            Err(e) => e == Error::Deserialization && decoded_ctxt_1(
                bytes@.subrange(start as int, start + CTXT_1_BYTES),
            ).is_none(),
        },
{
    let ghost part = bytes@.subrange(start as int, start + CTXT_1_BYTES);
    let total: usize = bytes.len();
    assert(start + CTXT_1_BYTES <= total);
    let b1: [u8; 48] = chunk(bytes, start);
    let b2: [u8; 48] = chunk(bytes, start + 48);
    let b3: [u8; 96] = chunk(bytes, start + 96);
    let b4: [u8; 96] = chunk(bytes, start + 192);
    assert(b1@ =~= part.subrange(0, 48));
    assert(b2@ =~= part.subrange(48, 96));
    assert(b3@ =~= part.subrange(96, 192));
    assert(b4@ =~= part.subrange(192, 288));
    let c1 = match G1::from_bytes(&b1) {
        Ok(g) => g,
        Err(e) => {
            return Err(e);
        },
    };
    let c2 = match G1::from_bytes(&b2) {
        Ok(g) => g,
        Err(e) => {
            return Err(e);
        },
    };
    let c3 = match G2::from_bytes(&b3) {
        Ok(g) => g,
        Err(e) => {
            return Err(e);
        },
    };
    let c4 = match G2::from_bytes(&b4) {
        Ok(g) => g,
        Err(e) => {
            return Err(e);
        },
    };
    Ok(Ciphertext1((c1, c2, c3, c4)))
}

/// Decodes one level-1 ciphertext. Bytes of another length, or with a part
/// that holds no group element, are refused.
pub fn bytes_to_ctxt_1(bytes: &[u8]) -> (r: Result<Ciphertext1, Error>)
    ensures
        match r {
            Ok(ct) => decoded_ctxt_1(bytes@) == Some(ct@),
            Err(e) => e == Error::Deserialization && decoded_ctxt_1(bytes@).is_none(),
        },
{
    if bytes.len() != CTXT_1_BYTES {
        return Err(Error::Deserialization);
    }
    assert(bytes@.subrange(0, CTXT_1_BYTES as int) =~= bytes@);
    read_ctxt_1(bytes, 0)
}

/// Decodes a recipient's payload into its `INFO_LEN` level-1 ciphertexts.
/// Bytes of another length, or with a part that holds no group element, are
/// refused.
pub fn bytes_to_ctxts_1(bytes: &Vec<u8>) -> (r: Result<Vec<Ciphertext1>, Error>)
    ensures
        match r {
            Ok(ctxts) => payload_decodes(bytes@) && ctxts@.len() == INFO_LEN && forall|i: int|
                0 <= i < INFO_LEN ==> decoded_ctxt_1(payload_part(bytes@, i)) == Some(
                    (#[trigger] ctxts@[i])@,
                ),
            Err(e) => e == Error::Deserialization && !payload_decodes(bytes@),
        },
{
    if bytes.len() != PAYLOAD_BYTES {
        return Err(Error::Deserialization);
    }
    let mut ctxts: Vec<Ciphertext1> = Vec::new();
    let mut i: usize = 0;
    while i < INFO_LEN
        invariant
            i <= INFO_LEN,
            bytes@.len() == PAYLOAD_BYTES,
            ctxts@.len() == i,
            forall|k: int|
                0 <= k < i ==> decoded_ctxt_1(payload_part(bytes@, k)) == Some(
                    (#[trigger] ctxts@[k])@,
                ),
        decreases INFO_LEN - i,
    {
        assert(i * CTXT_1_BYTES + CTXT_1_BYTES <= PAYLOAD_BYTES) by {
            assert(i <= 1 && CTXT_1_BYTES == 288 && PAYLOAD_BYTES == 576);
        }
        match read_ctxt_1(bytes.as_slice(), i * CTXT_1_BYTES) {
            Ok(ct) => {
                ctxts.push(ct);
            },
            Err(e) => {
                assert(decoded_ctxt_1(payload_part(bytes@, i as int)).is_none());
                return Err(e);
            },
        }
        i = i + 1;
    }
    assert forall|k: int| 0 <= k < INFO_LEN implies decoded_ctxt_1(
        #[trigger] payload_part(bytes@, k),
    ).is_some() by {
        assert(decoded_ctxt_1(payload_part(bytes@, k)) == Some(ctxts@[k]@));
    }
    Ok(ctxts)
}

/// Decodes one target-level ciphertext. Bytes of another length, or with a
/// part that holds no group element, are refused.
pub fn bytes_to_ctxt_t(bytes: &[u8]) -> (r: Result<CiphertextT, Error>)
    ensures
        match r {
            Ok(ct) => decoded_ctxt_t(bytes@) == Some(ct@),
            Err(e) => e == Error::Deserialization && decoded_ctxt_t(bytes@).is_none(),
        },
{
    if bytes.len() != CTXT_T_BYTES {
        return Err(Error::Deserialization);
    }
    let b1: [u8; 576] = chunk(bytes, 0);
    let b2: [u8; 576] = chunk(bytes, 576);
    let b3: [u8; 576] = chunk(bytes, 1152);
    let b4: [u8; 576] = chunk(bytes, 1728);
    let c1 = match GT::from_bytes(&b1) {
        Ok(g) => g,
        Err(e) => {
            return Err(e);
        },
    };
    let c2 = match GT::from_bytes(&b2) {
        Ok(g) => g,
        Err(e) => {
            return Err(e);
        },
    };
    let c3 = match GT::from_bytes(&b3) {
        Ok(g) => g,
        Err(e) => {
            return Err(e);
        },
    };
    let c4 = match GT::from_bytes(&b4) {
        Ok(g) => g,
        Err(e) => {
            return Err(e);
        },
    };
    Ok(CiphertextT((c1, c2, c3, c4)))
}

/// Decoding the encoding of a level-1 ciphertext gives the ciphertext back.
pub proof fn lemma_ctxt_1_roundtrip(parts: (Seq<u8>, Seq<u8>, Seq<u8>, Seq<u8>))
    requires
        ctxt_1_wf(parts),
    ensures
        decoded_ctxt_1(concat4(parts)) == Some(parts),
{
    let bytes = concat4(parts);
    assert(bytes.subrange(0, 48) =~= parts.0);
    assert(bytes.subrange(48, 96) =~= parts.1);
    assert(bytes.subrange(96, 192) =~= parts.2);
    assert(bytes.subrange(192, 288) =~= parts.3);
}

/// Decoding the bytes of a payload gives its ciphertexts back, each from its
/// part.
pub proof fn lemma_payload_roundtrip(ctxts: Seq<Ciphertext1>)
    requires
        ctxts.len() == INFO_LEN,
        forall|i: int| 0 <= i < INFO_LEN ==> ctxt_1_wf((#[trigger] ctxts[i])@),
    ensures
        payload_decodes(payload_bytes(ctxts, INFO_LEN as nat)),
        forall|i: int|
            0 <= i < INFO_LEN ==> decoded_ctxt_1(
                #[trigger] payload_part(payload_bytes(ctxts, INFO_LEN as nat), i),
            ) == Some(ctxts[i]@),
{
    let bytes = payload_bytes(ctxts, INFO_LEN as nat);
    let first = concat4(ctxts[0]@);
    let second = concat4(ctxts[1]@);
    assert(ctxt_1_wf(ctxts[0]@) && ctxt_1_wf(ctxts[1]@));
    assert(payload_bytes(ctxts, 1) =~= first) by {
        reveal_with_fuel(payload_bytes, 2);
    }
    assert(bytes =~= first + second) by {
        reveal_with_fuel(payload_bytes, 3);
    }
    assert(first.len() == CTXT_1_BYTES && second.len() == CTXT_1_BYTES);
    assert(payload_part(bytes, 0) =~= first);
    assert(payload_part(bytes, 1) =~= second);
    lemma_ctxt_1_roundtrip(ctxts[0]@);
    lemma_ctxt_1_roundtrip(ctxts[1]@);
}

/// Decoding the encoding of a target-level ciphertext gives the ciphertext
/// back.
pub proof fn lemma_ctxt_t_roundtrip(parts: (Seq<u8>, Seq<u8>, Seq<u8>, Seq<u8>))
    requires
        ctxt_t_wf(parts),
    ensures
        decoded_ctxt_t(concat4(parts)) == Some(parts),
{
    let bytes = concat4(parts);
    assert(bytes.subrange(0, 576) =~= parts.0);
    assert(bytes.subrange(576, 1152) =~= parts.1);
    assert(bytes.subrange(1152, 1728) =~= parts.2);
    assert(bytes.subrange(1728, 2304) =~= parts.3);
}

/// Bytes of any other length than that of a level-1 ciphertext decode to
/// nothing, and so do bytes of any other length than that of a target-level
/// ciphertext.
pub proof fn lemma_wrong_length_is_refused(bytes: Seq<u8>)
    ensures
        bytes.len() != CTXT_1_BYTES ==> decoded_ctxt_1(bytes).is_none(),
        bytes.len() != CTXT_T_BYTES ==> decoded_ctxt_t(bytes).is_none(),
        bytes.len() != PAYLOAD_BYTES ==> !payload_decodes(bytes),
{
}

} // verus!
