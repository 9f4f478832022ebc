use threshold_encryption::ThresholdEncryptionError;

#[test]
fn messages_of_the_failures() {
    assert_eq!(
        ThresholdEncryptionError::CiphertextVerificationFailed.message(),
        "ciphertext verification failed"
    );
    assert_eq!(
        ThresholdEncryptionError::DecryptionShareVerificationFailed.message(),
        "Decryption share verification failed"
    );
    assert_eq!(ThresholdEncryptionError::HashToCurveError.message(), "Could not hash to curve");
    assert_eq!(
        ThresholdEncryptionError::InvalidParameters.message(),
        "invalid threshold parameters"
    );
    assert_eq!(ThresholdEncryptionError::RandomnessError.message(), "randomness source failed");
    assert_eq!(
        ThresholdEncryptionError::InsufficientShares.message(),
        "insufficient decryption shares"
    );
    assert_eq!(
        ThresholdEncryptionError::DegenerateInterpolation.message(),
        "degenerate interpolation points"
    );
    assert_eq!(ThresholdEncryptionError::DecryptionFailed.message(), "decryption failed");
}
