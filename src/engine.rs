use crate::codec::{
    authentic_container,
    begin_encryption,
    concat_chunks,
    decrypt_bytes,
    decrypt_spec,
    encrypt_bytes,
    is_encryption,
    Sealer,
};
use crate::error::VaultError;
use crate::format::{parse_header_spec, same_outcome, SALT_SIZE};
use crate::kdf::derived_key;
use crate::types::CryptoEngine;
use vstd::prelude::*;

verus! {

/// Relies on rand's `thread_rng` and `RngCore::fill_bytes`: a buffer of the
/// requested length filled from the thread-local cryptographically secure
/// generator. Nothing is known of the bytes themselves.
#[verifier::external_body]
fn random_bytes(len: usize) -> (r: Vec<u8>)
    ensures
        r@.len() == len,
{
    let mut buf = vec![0u8; len];
    rand::RngCore::fill_bytes(&mut rand::thread_rng(), &mut buf);
    buf
}

impl CryptoEngine {
    /// Starts a streaming encryption with a fresh random salt and nonce seed:
    /// returns the header to write first and the state that seals the
    /// chunks.
    pub fn begin_encryption(&self, password: &[u8]) -> (r: Result<(Vec<u8>, Sealer), VaultError>)
        ensures
            match r {
                Ok((header, sealer)) => sealer.wf() && sealer.algorithm == self.algorithm
                    && sealer.nonces.counter == 0 && parse_header_spec(header@) == Ok::<
                    (crate::types::Algorithm, Seq<u8>, Seq<u8>, u32),
                    VaultError,
                >((self.algorithm, parse_header_spec(header@)->Ok_0.1, sealer.base_nonce@, self.iterations))
                    && derived_key(password@, parse_header_spec(header@)->Ok_0.1, self.iterations)
                    == Some(sealer.key.key@),
                Err(e) => e is KdfError,
            },
            self.iterations >= 1 && password@.len() <= 0xFFFFFFFF ==> r is Ok,
    {
        let salt = random_bytes(SALT_SIZE);
        let base_nonce = random_bytes(self.algorithm.nonce_size());
        let ghost salt_v = salt@;
        let ghost base_v = base_nonce@;
        let r = begin_encryption(password, self.algorithm, self.iterations, salt, base_nonce);
        proof {
            if r is Ok {
                crate::format::lemma_header_round_trip(
                    self.algorithm,
                    salt_v,
                    base_v,
                    self.iterations,
                    Seq::empty(),
                );
                assert(r->Ok_0.0@ + Seq::<u8>::empty() =~= r->Ok_0.0@);
            }
        }
        r
    }

    /// Encrypts a whole plaintext held in memory under a fresh random salt
    /// and nonce seed, with this engine's cipher and work factor.
    pub fn encrypt_bytes(&self, plaintext: &[u8], password: &[u8]) -> (r: Result<
        Vec<u8>,
        VaultError,
    >)
        ensures
            match r {
                Ok(c) => exists|salt: Seq<u8>, base: Seq<u8>|
                    #[trigger] is_encryption(
                        c@,
                        password@,
                        self.algorithm,
                        salt,
                        base,
                        self.iterations,
                        plaintext@,
                    ),
                Err(e) => e is KdfError,
            },
            self.iterations >= 1 && password@.len() <= 0xFFFFFFFF ==> r is Ok,
    {
        let salt = random_bytes(SALT_SIZE);
        let base_nonce = random_bytes(self.algorithm.nonce_size());
        let ghost salt_v = salt@;
        let ghost base_v = base_nonce@;
        let r = encrypt_bytes(
            plaintext,
            password,
            self.algorithm,
            self.iterations,
            salt,
            base_nonce,
        );
        proof {
            if r is Ok {
                assert(is_encryption(
                    r->Ok_0@,
                    password@,
                    self.algorithm,
                    salt_v,
                    base_v,
                    self.iterations,
                    plaintext@,
                ));
            }
        }
        r
    }

    /// Decrypts a whole container held in memory; the cipher and work factor
    /// come from its header. The outcome is `decrypt_spec`: success exactly
    /// when every record opens in order, else the error of the first failure.
    pub fn decrypt_bytes(container: &[u8], password: &[u8]) -> (r: Result<Vec<u8>, VaultError>)
        ensures
            forall|alg: crate::types::Algorithm, salt: Seq<u8>, base: Seq<u8>, wf: u32, pt: Seq<u8>|
                #[trigger] is_encryption(container@, password@, alg, salt, base, wf, pt) ==> r is Ok
                    && r->Ok_0@ == pt,
            match parse_header_spec(container@) {
                Err(e) => same_outcome(
                    match r {
                        Ok(o) => Ok(()),
                        Err(x) => Err(x),
                    },
                    Err(e),
                ),
                Ok(_) => true,
            },
            r is Ok ==> exists|chunks: Seq<Seq<u8>>|
                #[trigger] authentic_container(container@, password@, chunks) && r->Ok_0@
                    == concat_chunks(chunks),
            same_outcome(
                match r {
                    Ok(o) => Ok(o@),
                    Err(x) => Err(x),
                },
                decrypt_spec(container@, password@),
            ),
    {
        decrypt_bytes(container, password)
    }
}

} // verus!
