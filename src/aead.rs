use crate::types::{algorithm_byte, Algorithm, CHUNK_SIZE, KEY_SIZE, TAG_SIZE};
use vstd::prelude::*;

verus! {

/// What sealing a plaintext with empty associated data yields (ciphertext
/// followed by the tag), for the cipher with the given wire identifier, a key
/// and a 12-byte nonce.
pub uninterp spec fn sealed_chunk(
    alg_id: u8,
    key: Seq<u8>,
    nonce: Seq<u8>,
    plaintext: Seq<u8>,
) -> Seq<u8>;

/// Relies on ring's `UnboundKey::new` and `LessSafeKey::seal_in_place_append_tag`
/// (AES-256-GCM or ChaCha20-Poly1305, empty associated data): sealing is a
/// function of key, nonce and plaintext, and appends a 16-byte tag. With a
/// 32-byte key and a 12-byte nonce it fails only on inputs far longer than a
/// chunk.
#[verifier::external_body]
pub(crate) fn aead_seal(alg: Algorithm, key: &[u8], nonce: &[u8], plaintext: &[u8]) -> (r: Option<
    Vec<u8>,
>)
    ensures
        r is Some ==> r->Some_0@ == sealed_chunk(algorithm_byte(alg), key@, nonce@, plaintext@)
            && r->Some_0@.len() == plaintext@.len() + TAG_SIZE,
        key@.len() == KEY_SIZE && nonce@.len() == 12 && plaintext@.len() <= CHUNK_SIZE ==> r is Some,
{
    let cipher = match alg {
        Algorithm::Aes256Gcm => &ring::aead::AES_256_GCM,
        Algorithm::ChaCha20Poly1305 => &ring::aead::CHACHA20_POLY1305,
    };
    let key = ring::aead::LessSafeKey::new(ring::aead::UnboundKey::new(cipher, key).ok()?);
    let nonce = ring::aead::Nonce::try_assume_unique_for_key(nonce).ok()?;
    let mut in_out = plaintext.to_vec();
    key.seal_in_place_append_tag(nonce, ring::aead::Aad::empty(), &mut in_out).ok()?;
    Some(in_out)
}

/// Relies on ring's `UnboundKey::new` and `LessSafeKey::open_in_place`
/// (empty associated data): opening recomputes the tag over the ciphertext
/// and accepts exactly when it matches, so it accepts a sealing of some
/// plaintext and returns that plaintext, and accepts nothing else.
#[verifier::external_body]
pub(crate) fn aead_open(alg: Algorithm, key: &[u8], nonce: &[u8], ciphertext: &[u8]) -> (r: Option<
    Vec<u8>,
>)
    ensures
        r is Some ==> ciphertext@ == sealed_chunk(
            algorithm_byte(alg),
            key@,
            nonce@,
            r->Some_0@,
        ),
        r is Some ==> r->Some_0@.len() + TAG_SIZE == ciphertext@.len(),
        forall|p: Seq<u8>|
            key@.len() == KEY_SIZE && nonce@.len() == 12 && p.len() <= CHUNK_SIZE && ciphertext@
                == #[trigger] sealed_chunk(algorithm_byte(alg), key@, nonce@, p) ==> r is Some
                && r->Some_0@ == p,
{
    let cipher = match alg {
        Algorithm::Aes256Gcm => &ring::aead::AES_256_GCM,
        Algorithm::ChaCha20Poly1305 => &ring::aead::CHACHA20_POLY1305,
    };
    let key = ring::aead::LessSafeKey::new(ring::aead::UnboundKey::new(cipher, key).ok()?);
    let nonce = ring::aead::Nonce::try_assume_unique_for_key(nonce).ok()?;
    let mut in_out = ciphertext.to_vec();
    let plain_len = key.open_in_place(nonce, ring::aead::Aad::empty(), &mut in_out).ok()?.len();
    in_out.truncate(plain_len);
    Some(in_out)
}

} // verus!
