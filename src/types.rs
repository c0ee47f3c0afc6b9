use vstd::prelude::*;

verus! {

/// Size in bytes of the authentication tag that both ciphers append.
pub const TAG_SIZE: usize = 16;

/// Size in bytes of a derived key.
pub const KEY_SIZE: usize = 32;

/// Size in bytes of a full plaintext chunk (1 MiB).
pub const CHUNK_SIZE: usize = 1048576;

/// The supported authenticated ciphers.
#[derive(Clone, Copy, Debug, PartialEq, Eq, Structural)]
pub enum Algorithm {
    /// AES-256-GCM, wire identifier 1.
    Aes256Gcm,
    /// ChaCha20-Poly1305, wire identifier 2.
    ChaCha20Poly1305,
}

/// The stable one-byte wire identifier of a cipher.
pub open spec fn algorithm_byte(a: Algorithm) -> u8 {
    match a {
        Algorithm::Aes256Gcm => 1,
        Algorithm::ChaCha20Poly1305 => 2,
    }
}

/// The cipher that a wire identifier names, if any.
pub open spec fn algorithm_of_byte(b: u8) -> Option<Algorithm> {
    if b == 1 {
        Some(Algorithm::Aes256Gcm)
    } else if b == 2 {
        Some(Algorithm::ChaCha20Poly1305)
    } else {
        None
    }
}

/// Width of the per-file nonce seed that the header stores for a cipher.
pub open spec fn algorithm_nonce_size(a: Algorithm) -> nat {
    match a {
        Algorithm::Aes256Gcm => 12,
        Algorithm::ChaCha20Poly1305 => 24,
    }
}

impl Algorithm {
    /// The wire identifier of this cipher.
    pub fn to_byte(&self) -> (r: u8)
        ensures
            r == algorithm_byte(*self),
    {
        match self {
            Algorithm::Aes256Gcm => 1,
            Algorithm::ChaCha20Poly1305 => 2,
        }
    }

    /// The cipher named by a wire identifier; `None` for an unknown byte.
    pub fn from_byte(byte: u8) -> (r: Option<Algorithm>)
        ensures
            r == algorithm_of_byte(byte),
    {
        match byte {
            1 => Some(Algorithm::Aes256Gcm),
            2 => Some(Algorithm::ChaCha20Poly1305),
            _ => None,
        }
    }

    /// Width in bytes of the nonce seed stored in the header for this cipher.
    pub fn nonce_size(&self) -> (r: usize)
        ensures
            r == algorithm_nonce_size(*self),
    {
        match self {
            Algorithm::Aes256Gcm => 12,
            Algorithm::ChaCha20Poly1305 => 24,
        }
    }

    /// Width in bytes of the authentication tag (the same for both ciphers).
    pub fn tag_size(&self) -> (r: usize)
        ensures
            r == TAG_SIZE,
    {
        TAG_SIZE
    }
}

/// Wire identifiers round-trip: every cipher is read back from its byte, and
/// every byte that names a cipher is that cipher's byte.
pub proof fn lemma_algorithm_byte_round_trip(a: Algorithm, b: u8)
    ensures
        algorithm_of_byte(algorithm_byte(a)) == Some(a),
        algorithm_of_byte(b) is Some ==> algorithm_byte(algorithm_of_byte(b)->Some_0) == b,
        algorithm_of_byte(b) is None <==> (b != 1 && b != 2),
{
}

/// What an encryption is configured with: the cipher and the work factor of
/// the password hash.
pub struct CryptoEngine {
    pub algorithm: Algorithm,
    pub iterations: u32,
}

impl CryptoEngine {
    /// A configuration for the given cipher and work factor.
    pub fn new(algorithm: Algorithm, iterations: u32) -> (r: Self)
        ensures
            r.algorithm == algorithm,
            r.iterations == iterations,
    {
        CryptoEngine { algorithm, iterations }
    }
}

/// Secret key bytes, owned by one encryption or decryption and wiped when it
/// ends.
pub struct KeyMaterial {
    pub key: Vec<u8>,
}

/// Relies on zeroize's `Zeroize` impl for `Vec<u8>`: it overwrites every
/// element and the spare capacity with zeros, then clears the vector.
#[verifier::external_body]
fn zeroize_bytes(v: &mut Vec<u8>)
    ensures
        final(v)@.len() == 0,
{
    zeroize::Zeroize::zeroize(v)
}

impl KeyMaterial {
    /// Overwrites the key bytes with zeros and leaves the key empty.
    pub fn wipe(&mut self)
        ensures
            final(self).key@.len() == 0,
    {
        zeroize_bytes(&mut self.key);
    }
}

} // verus!
