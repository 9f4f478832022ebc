//! The failures that the scheme reports to its callers.

use vstd::prelude::*;

verus! {

/// Why an operation of the scheme refused to produce a result.
#[derive(Debug, Clone, Copy, PartialEq, Eq, Structural)]
pub enum ThresholdEncryptionError {
    /// The threshold and the number of holders do not satisfy `1 <= t <= n`.
    InvalidParameters,
    /// The randomness source delivered a value that the scheme cannot use.
    RandomnessError,
    /// Hashing to curve failed
    HashToCurveError,
    /// The ciphertext does not satisfy its pairing equation.
    CiphertextVerificationFailed,
    /// The decryption share does not satisfy its pairing equation.
    DecryptionShareVerificationFailed,
    /// Fewer shares with pairwise distinct indices than the threshold.
    InsufficientShares,
    /// Two interpolation points coincide.
    DegenerateInterpolation,
    /// The ciphertext is longer than the stream cipher can process.
    DecryptionFailed,
}

/// Whether a result is the given failure.
pub open spec fn fails_with<T>(
    result: Result<T, ThresholdEncryptionError>,
    error: ThresholdEncryptionError,
) -> bool {
    result matches Err(e) && e == error
}

impl ThresholdEncryptionError {
    /// The text that describes each failure.
    pub open spec fn message_spec(self) -> Seq<char> {
        match self {
            ThresholdEncryptionError::InvalidParameters => "invalid threshold parameters"@,
            ThresholdEncryptionError::RandomnessError => "randomness source failed"@,
            ThresholdEncryptionError::HashToCurveError => "Could not hash to curve"@,
            ThresholdEncryptionError::CiphertextVerificationFailed => {
                "ciphertext verification failed"@
            },
            ThresholdEncryptionError::DecryptionShareVerificationFailed => {
                "Decryption share verification failed"@
            },
            ThresholdEncryptionError::InsufficientShares => "insufficient decryption shares"@,
            ThresholdEncryptionError::DegenerateInterpolation => "degenerate interpolation points"@,
            ThresholdEncryptionError::DecryptionFailed => "decryption failed"@,
        }
    }

    /// A human-readable description of the failure.
    pub fn message(&self) -> (text: &'static str)
        ensures
            text@ == self.message_spec(),
    {
        match self {
            ThresholdEncryptionError::InvalidParameters => "invalid threshold parameters",
            ThresholdEncryptionError::RandomnessError => "randomness source failed",
            ThresholdEncryptionError::HashToCurveError => "Could not hash to curve",
            ThresholdEncryptionError::CiphertextVerificationFailed => {
                "ciphertext verification failed"
            },
            ThresholdEncryptionError::DecryptionShareVerificationFailed => {
                "Decryption share verification failed"
            },
            ThresholdEncryptionError::InsufficientShares => "insufficient decryption shares",
            ThresholdEncryptionError::DegenerateInterpolation => "degenerate interpolation points",
            ThresholdEncryptionError::DecryptionFailed => "decryption failed",
        }
    }
}

} // verus!
