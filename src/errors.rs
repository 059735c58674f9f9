use vstd::prelude::*;

verus! {

/// Failures of a storage backend.
#[derive(Debug, Clone, PartialEq, Eq)]
pub enum StorageError {
    /// An I/O operation failed; the text describes it.
    Io(String),
    /// A backup could not be verified, or a failed write had to be undone.
    IntegrityError,
}

/// Failures of the key-derivation and cipher adapter.
#[derive(Debug, Clone, PartialEq, Eq)]
pub enum CryptoError {
    /// No key has been derived yet.
    NotInitialized,
    /// A nonce did not have the cipher's length.
    InvalidNonce,
    /// The authenticated cipher refused the operation.
    Aead(String),
    /// The key-derivation function refused its inputs.
    KeyDerivationError,
    /// The operating system's random source failed.
    RandomUnavailable,
}

/// Failures of vault engine operations.
#[derive(Debug, Clone, PartialEq, Eq)]
pub enum VaultError {
    /// The operation needs an unlocked vault.
    Locked,
    /// The operation needs a locked engine.
    Unlocked,
    /// An entry for the service already exists.
    EntryExists,
    /// No entry for the service exists.
    EntryNotFound,
    /// The named vault does not exist.
    VaultNotFound,
    /// Bytes could not be encoded or decoded.
    Serialization,
    /// Decryption or authentication failed: wrong password or corrupted vault.
    InvalidPassword,
    /// The cipher adapter failed for a reason other than authentication.
    Crypto(CryptoError),
    /// The storage backend failed.
    Storage(StorageError),
    /// The system clock could not be read.
    Clock,
}

impl From<CryptoError> for VaultError {
    fn from(e: CryptoError) -> (r: VaultError)
        ensures
            r == VaultError::Crypto(e),
    {
        VaultError::Crypto(e)
    }
}

impl vstd::std_specs::convert::FromSpecImpl<CryptoError> for VaultError {
    open spec fn obeys_from_spec() -> bool {
        true
    }

    open spec fn from_spec(e: CryptoError) -> VaultError {
        VaultError::Crypto(e)
    }
}

impl From<StorageError> for VaultError {
    fn from(e: StorageError) -> (r: VaultError)
        ensures
            r == VaultError::Storage(e),
    {
        VaultError::Storage(e)
    }
}

impl vstd::std_specs::convert::FromSpecImpl<StorageError> for VaultError {
    open spec fn obeys_from_spec() -> bool {
        true
    }

    open spec fn from_spec(e: StorageError) -> VaultError {
        VaultError::Storage(e)
    }
}

} // verus!
