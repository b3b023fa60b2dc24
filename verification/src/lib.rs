//! Privacy-preserving aid distribution: a two-level homomorphic encryption
//! scheme over BLS12-381 with threshold decryption, a single-level threshold
//! ElGamal variant, the byte layouts of their ciphertexts, and the decisions
//! that the parties of a distribution period take.

use vstd::prelude::*;

pub mod auditor;
pub mod bytes;
pub mod codec;
pub mod committee;
pub mod elgamal_exponents;
pub mod envelope;
pub mod error;
pub mod exponents;
pub mod g1;
pub mod g2;
pub mod gt;
pub mod helper;
pub mod period;
pub mod recipient;
pub mod scalar;
pub mod shamir;
pub mod signature;
pub mod station;
pub mod tags;
pub mod thbgn;
pub mod thelgamal;
pub mod two_party;

verus! {

/// Number of recipients enrolled in a deployment.
pub const NUM_RECIPIENTS: usize = 10_000;

/// Number of distribution periods.
pub const NUM_PERIODS: usize = 10;

/// Number of recipients that show up in a period.
pub const NUM_SHOW_UP: usize = 9_000;

/// Number of committee members whose partial decryptions are combined.
pub const DECRYPTION_THRESHOLD: usize = NUM_RECIPIENTS / 5;

/// Smallest entitlement of a recipient.
pub const MIN_ENTITLEMENT: usize = 1;

/// Largest entitlement of a recipient, and the number of secret tags that a
/// recipient owns per period.
pub const MAX_ENTITLEMENT: usize = 5;

/// Length of a recipient's contact information.
pub const CONTACT_INFO_LEN: usize = 10;

/// Sum of the entitlements of the recipients that show up.
pub const TOTAL_SHOWUP_ENTITLEMENT: usize = 20_000;

/// Sum of the entitlements that are handed out.
pub const TOTAL_ENTITLEMENT: usize = 18_000;

/// Length of a secret tag in bytes.
pub const TAG_BYTELEN: usize = 16;

/// Number of level-1 ciphertexts in a recipient's payload: one indicator bit
/// and one data field.
pub const INFO_LEN: usize = 2;

/// Plaintext range of the bounded discrete-logarithm search.
pub const BOUND: u64 = 1024;

} // verus!
