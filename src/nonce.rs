use crate::types::{algorithm_nonce_size, Algorithm};
use vstd::bytes::{lemma_auto_spec_u64_to_from_le_bytes, spec_u64_to_le_bytes, u64_to_le_bytes};
use vstd::prelude::*;

verus! {

/// Length in bytes of the nonce that both ciphers take per sealing.
pub const AEAD_NONCE_LEN: usize = 12;

/// The 12-byte block holding a chunk counter: four zero bytes, then the
/// counter in little-endian order.
pub open spec fn counter_block(counter: u64) -> Seq<u8> {
    Seq::new(4, |i: int| 0u8) + spec_u64_to_le_bytes(counter)
}

/// The nonce that seals chunk number `counter` of a file.
///
/// ChaCha20-Poly1305 takes the counter block itself; AES-256-GCM mixes the
/// counter block into the file's random 12-byte nonce seed by XOR.
pub open spec fn chunk_nonce(alg: Algorithm, base: Seq<u8>, counter: u64) -> Seq<u8> {
    match alg {
        Algorithm::ChaCha20Poly1305 => counter_block(counter),
        Algorithm::Aes256Gcm => Seq::new(12, |i: int| base[i] ^ counter_block(counter)[i]),
    }
}

/// Derives the nonce of chunk number `counter`.
pub fn derive_nonce(alg: Algorithm, base: &[u8], counter: u64) -> (r: Vec<u8>)
    requires
        base@.len() == algorithm_nonce_size(alg),
    ensures
        r@ == chunk_nonce(alg, base@, counter),
        r@.len() == AEAD_NONCE_LEN,
{
    proof {
        lemma_auto_spec_u64_to_from_le_bytes();
    }
    let ctr = u64_to_le_bytes(counter);
    let mut n: Vec<u8> = Vec::new();
    let mut i: usize = 0;
    while i < AEAD_NONCE_LEN
        invariant
            i <= AEAD_NONCE_LEN,
            n@.len() == i,
            ctr@ == spec_u64_to_le_bytes(counter),
            ctr@.len() == 8,
            base@.len() == algorithm_nonce_size(alg),
            forall|j: int| 0 <= j < i ==> n@[j] == chunk_nonce(alg, base@, counter)[j],
        decreases AEAD_NONCE_LEN - i,
    {
        let c: u8 = if i < 4 {
            0
        } else {
            ctr[i - 4]
        };
        assert(c == counter_block(counter)[i as int]);
        let b: u8 = match alg {
            Algorithm::Aes256Gcm => base[i] ^ c,
            Algorithm::ChaCha20Poly1305 => c,
        };
        n.push(b);
        i = i + 1;
    }
    assert(n@ =~= chunk_nonce(alg, base@, counter));
    n
}

/// Within one file, distinct chunk counters give distinct nonces: no nonce is
/// used twice under one key.
pub proof fn lemma_nonces_distinct(alg: Algorithm, base: Seq<u8>, i: u64, j: u64)
    requires
        base.len() == algorithm_nonce_size(alg),
        i != j,
    ensures
        chunk_nonce(alg, base, i) != chunk_nonce(alg, base, j),
{
    lemma_auto_spec_u64_to_from_le_bytes();
    let bi = counter_block(i);
    let bj = counter_block(j);
    if chunk_nonce(alg, base, i) == chunk_nonce(alg, base, j) {
        assert forall|k: int| 0 <= k < 12 implies bi[k] == bj[k] by {
            let x = base[k];
            let y = bi[k];
            let z = bj[k];
            if alg == Algorithm::Aes256Gcm {
                assert(chunk_nonce(alg, base, i)[k] == x ^ y);
                assert(chunk_nonce(alg, base, j)[k] == x ^ z);
                assert((x ^ y) == (x ^ z) ==> y == z) by (bit_vector);
            } else {
                assert(chunk_nonce(alg, base, i)[k] == y);
            }
        }
        assert(spec_u64_to_le_bytes(i) =~= spec_u64_to_le_bytes(j)) by {
            assert forall|k: int| 0 <= k < 8 implies spec_u64_to_le_bytes(i)[k]
                == spec_u64_to_le_bytes(j)[k] by {
                assert(bi[k + 4] == bj[k + 4]);
            }
        }
        assert(false);
    }
}

/// The per-file chunk counter: it starts at zero and hands out each value
/// once.
pub struct CounterNonceSequence {
    pub counter: u64,
}

impl CounterNonceSequence {
    /// A sequence whose next chunk is chunk zero.
    pub fn new() -> (r: Self)
        ensures
            r.counter == 0,
    {
        CounterNonceSequence { counter: 0 }
    }

    /// The nonce of the next chunk, after which the counter moves on by one.
    /// `None`, with the counter unchanged, once every counter value is spent.
    pub fn advance(&mut self, alg: Algorithm, base: &[u8]) -> (r: Option<Vec<u8>>)
        requires
            base@.len() == algorithm_nonce_size(alg),
        ensures
            old(self).counter == u64::MAX ==> r is None && final(self).counter == old(
                self,
            ).counter,
            old(self).counter < u64::MAX ==> r is Some && r->Some_0@ == chunk_nonce(
                alg,
                base@,
                old(self).counter,
            ) && final(self).counter == old(self).counter + 1,
            r is Some ==> r->Some_0@.len() == AEAD_NONCE_LEN,
    {
        if self.counter == u64::MAX {
            return None;
        }
        let n = derive_nonce(alg, base, self.counter);
        self.counter = self.counter + 1;
        Some(n)
    }
}

} // verus!
