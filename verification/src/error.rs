//! The reasons for which an operation of a distribution period is refused.

use vstd::prelude::*;

verus! {

/// Why an operation was refused. Every error aborts the current period.
#[derive(Clone, Copy, Debug, PartialEq, Eq, Structural)]
pub enum Error {
    /// A threshold, a share count, a share identifier or the shape of a
    /// ciphertext array is not acceptable.
    InvalidParameter,
    /// Bytes do not decode to the expected group elements.
    Deserialization,
    /// An outer envelope failed authenticated decryption.
    EnvelopeAuth,
    /// A submitted tag is not in the set of valid tags.
    InvalidSecretTag,
    /// A submitted tag was already seen in this period.
    DuplicateSecretTag,
    /// A recipient did not submit exactly the expected number of tags.
    WrongTagCount,
    /// The period identifier is not later than the last processed period.
    StalePeriod,
    /// The helper's signature does not match its published output.
    HelperSignatureInvalid,
    /// The auditor's signature does not match the forwarded envelopes.
    AuditorSignatureInvalid,
    /// Fewer partial decryptions than needed were supplied.
    BelowThreshold,
    /// Partial decryptions disagree on a component that all must share.
    InconsistentShares,
    /// The bounded discrete-logarithm search found no exponent.
    DLogNotFound,
    /// The randomness source failed to deliver a usable value.
    RngFailure,
}

} // verus!
