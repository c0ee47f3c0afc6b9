use vstd::prelude::*;

verus! {

/// Every way an operation of the library can fail.
#[derive(Debug)]
pub enum VaultError {
    OutputExists(String),
    InputNotFound(String),
    FileReadError(String),
    FileWriteError(String),
    EncryptionError(String),
    DecryptionError(String),
    InvalidFormat(String),
    UnsupportedVersion(u8),
    UnsupportedAlgorithm(u8),
    PasswordRequired,
    AuthenticationFailed,
    KdfError(String),
    IoError(String),
}

impl VaultError {
    /// The human-readable message of the error.
    pub fn message(&self) -> String {
        match self {
            VaultError::OutputExists(p) => p.clone(),
            VaultError::InputNotFound(p) => p.clone(),
            VaultError::FileReadError(m) => m.clone(),
            VaultError::FileWriteError(m) => m.clone(),
            VaultError::EncryptionError(m) => m.clone(),
            VaultError::DecryptionError(m) => m.clone(),
            VaultError::InvalidFormat(m) => m.clone(),
            VaultError::UnsupportedVersion(_) => String::from_str("unsupported version"),
            VaultError::UnsupportedAlgorithm(_) => String::from_str("unsupported algorithm"),
            VaultError::PasswordRequired => String::from_str("password required"),
            VaultError::AuthenticationFailed => String::from_str(
                "invalid password or corrupted file",
            ),
            VaultError::KdfError(m) => m.clone(),
            VaultError::IoError(m) => m.clone(),
        }
    }
}

} // verus!
