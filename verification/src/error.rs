use vstd::prelude::*;

verus! {

/// Errors reported by the trust, policy and encryption layer.
#[derive(Debug, Clone, PartialEq, Eq)]
pub enum SecError {
    /// The endorsement private key is not 32 bytes long.
    InvalidPrivateKey,
    /// The endorsement public key is not 32 bytes long.
    InvalidPublicKey,
    /// The endorsement public key is not the one derived from the private key.
    KeyMismatch,
    /// A public key does not have the length of an Ed25519 public key.
    InvalidKeyLength,
    /// A 32-byte public key is not a valid Ed25519 point.
    InvalidKey,
    /// A string is not valid standard base64.
    InvalidBase64,
    /// A glob pattern could not be compiled.
    InvalidGlob,
    /// A string does not hold a delta identifier.
    InvalidDeltaId,
    /// A file name is not the name of an endorsement file.
    InvalidEndorsementKey,
    /// An endorsement record has an unsupported version or algorithm.
    UnsupportedEndorsementFormat,
    /// An endorsement signature does not have 64 bytes.
    InvalidSignatureLength,
    /// The public key named by an endorsement file is not a valid Ed25519 key.
    InvalidEndorsementPublicKey,
    /// No endorsement key has been configured.
    MissingEndorsementKey,
    /// The delta is blacklisted.
    Blacklisted,
    /// The requested slice lies outside the object.
    InvalidSlice,
    /// The delta lacks the endorsements that the endorsement mode asks for.
    InsufficientEndorsements,
    /// The endorsers are not authorized by the policy for every changed object.
    NotAllowedByPolicy,
    /// The key of a delta does not hold a delta identifier.
    InvalidDelta,
    /// Encryption failed.
    EncryptionFailed,
    /// The encrypted blob names an algorithm other than AES-256-GCM.
    UnsupportedAlgorithm(String),
    /// Decryption or authentication failed.
    DecryptionFailed,
    /// A signed write was asked for but no signing key is configured.
    MissingSigningKey,
    /// The policy does not allow the signer to change the object.
    WriteDenied(String),
    /// The signature of a delta is missing.
    MissingSignature,
    /// The signature of a delta is invalid or made with an untrusted key.
    InvalidSignature,
    /// The signer of a delta is not allowed to change the object.
    PolicyViolation(String),
    /// A stored record could not be read as the expected JSON document.
    InvalidRecord,
    /// The underlying storage failed.
    Storage(String),
}

impl SecError {
    /// A copy of the error.
    pub fn copy(&self) -> (r: SecError)
        ensures
            r == *self,
    {
        match self {
            SecError::UnsupportedAlgorithm(s) => SecError::UnsupportedAlgorithm(s.clone()),
            SecError::WriteDenied(s) => SecError::WriteDenied(s.clone()),
            SecError::PolicyViolation(s) => SecError::PolicyViolation(s.clone()),
            SecError::Storage(s) => SecError::Storage(s.clone()),
            SecError::InvalidPrivateKey => SecError::InvalidPrivateKey,
            SecError::InvalidPublicKey => SecError::InvalidPublicKey,
            SecError::KeyMismatch => SecError::KeyMismatch,
            SecError::InvalidKeyLength => SecError::InvalidKeyLength,
            SecError::InvalidKey => SecError::InvalidKey,
            SecError::InvalidBase64 => SecError::InvalidBase64,
            SecError::InvalidGlob => SecError::InvalidGlob,
            SecError::InvalidDeltaId => SecError::InvalidDeltaId,
            SecError::InvalidEndorsementKey => SecError::InvalidEndorsementKey,
            SecError::UnsupportedEndorsementFormat => SecError::UnsupportedEndorsementFormat,
            SecError::InvalidSignatureLength => SecError::InvalidSignatureLength,
            SecError::InvalidEndorsementPublicKey => SecError::InvalidEndorsementPublicKey,
            SecError::MissingEndorsementKey => SecError::MissingEndorsementKey,
            SecError::Blacklisted => SecError::Blacklisted,
            SecError::InvalidSlice => SecError::InvalidSlice,
            SecError::InsufficientEndorsements => SecError::InsufficientEndorsements,
            SecError::NotAllowedByPolicy => SecError::NotAllowedByPolicy,
            SecError::InvalidDelta => SecError::InvalidDelta,
            SecError::EncryptionFailed => SecError::EncryptionFailed,
            SecError::DecryptionFailed => SecError::DecryptionFailed,
            SecError::MissingSigningKey => SecError::MissingSigningKey,
            SecError::MissingSignature => SecError::MissingSignature,
            SecError::InvalidSignature => SecError::InvalidSignature,
            SecError::InvalidRecord => SecError::InvalidRecord,
        }
    }
}

} // verus!
