//! A chunked, password-based authenticated-encryption container format.
//!
//! The container is a header (format version, cipher identifier, salt, base
//! nonce, key-derivation work factor) followed by length-prefixed sealed
//! chunks. Every piece of framing, nonce derivation and dispatch is verified;
//! the cipher, the password hash, the random source and the wiping of key
//! bytes come from outside crates through the trusted items of `aead`, `kdf`,
//! `engine` and `types`.
pub mod aead;
pub mod codec;
pub mod engine;
pub mod error;
pub mod format;
pub mod kdf;
pub mod nonce;
pub mod types;
pub mod utils;

pub use codec::{Opener, Sealer};
pub use error::VaultError;
pub use types::{Algorithm, CryptoEngine, KeyMaterial};
