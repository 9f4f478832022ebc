//! Threshold public-key encryption over the BLS12-381 pairing groups.
//!
//! One public key encrypts; any `t` of the `n` holders of a private key share
//! can decrypt together, and fewer than `t` cannot.

pub mod completeness;
pub mod congruence;
pub mod error;
pub mod group;
pub mod interpolation;
pub mod key_generation;
pub mod reconstruction;
pub mod scalar;
pub mod scheme;
pub mod symmetric;

pub use error::ThresholdEncryptionError;
pub use scheme::{
    construct_tag_hash, mock_hash, share_combine, Ciphertext, DecryptionShare, EncryptionPubkey,
    PrivkeyShare, ShareVerificationPubkey,
};
