use vstd::prelude::*;

verus! {

/// The kinds of failure that the secret-id operations report.
#[derive(Clone, Copy, Debug, PartialEq, Eq, Structural)]
pub enum RvError {
    /// A required identifier (digest, prefix, accessor) was empty.
    MissingArgument,
    /// The keyed-hash key was empty.
    InvalidInput,
    /// The keyed-hash input exceeds the accepted length.
    InputTooLarge,
    /// The secret-id is already registered under the role.
    AlreadyRegistered,
    /// The salting subsystem is not available.
    NotInitialized,
    /// The secret-id's CIDR blocks are broader than the role's.
    CidrViolation,
    /// A CIDR block could not be parsed.
    InvalidCidr,
    /// The cryptographic library failed to compute a digest or random bytes.
    CryptoFailure,
    /// The underlying key-value store failed, or a record could not be encoded.
    StorageError,
}

impl RvError {
    /// A short human-readable description of the error.
    pub fn message(&self) -> (r: String) {
        match self {
            RvError::MissingArgument => String::from_str("missing argument"),
            RvError::InvalidInput => String::from_str("invalid hmac key"),
            RvError::InputTooLarge => String::from_str("value is longer than the maximum accepted length"),
            RvError::AlreadyRegistered => String::from_str("secret_id is already registered"),
            RvError::NotInitialized => String::from_str("approle module not initialized"),
            RvError::CidrViolation => String::from_str("failed to verify subset relationship between CIDR blocks"),
            RvError::InvalidCidr => String::from_str("invalid CIDR block"),
            RvError::CryptoFailure => String::from_str("cryptographic operation failed"),
            RvError::StorageError => String::from_str("storage operation failed"),
        }
    }
}

} // verus!
