use crate::aead::{aead_open, aead_seal, sealed_chunk};
use crate::error::VaultError;
use crate::format::{
    append_bytes,
    header_size,
    lemma_header_round_trip,
    copy_range,
    encode_header,
    frame_record,
    header_bytes,
    header_len,
    parse_header,
    parse_header_spec,
    record_bytes,
    record_len,
    same_outcome,
    LENGTH_PREFIX_SIZE,
    SALT_SIZE,
};
use crate::kdf::{derive_key, derived_key};
use crate::nonce::{chunk_nonce, CounterNonceSequence};
use crate::types::{
    algorithm_byte,
    algorithm_nonce_size,
    Algorithm,
    KeyMaterial,
    CHUNK_SIZE,
    KEY_SIZE,
    TAG_SIZE,
};
use vstd::bytes::{
    lemma_auto_spec_u32_to_from_le_bytes,
    spec_u32_from_le_bytes,
    spec_u32_to_le_bytes,
};
use vstd::prelude::*;

verus! {

/// The sealed bytes of chunk number `counter` of a file.
pub open spec fn sealed_at(
    alg: Algorithm,
    key: Seq<u8>,
    base: Seq<u8>,
    counter: nat,
    plaintext: Seq<u8>,
) -> Seq<u8> {
    sealed_chunk(algorithm_byte(alg), key, chunk_nonce(alg, base, counter as u64), plaintext)
}

/// The records that seal `pt`, cut into full chunks and one last chunk of at
/// most a full chunk's size (possibly empty), numbered from `counter` on.
pub open spec fn records_from(
    alg: Algorithm,
    key: Seq<u8>,
    base: Seq<u8>,
    pt: Seq<u8>,
    counter: nat,
) -> Seq<u8>
    decreases pt.len(),
{
    if pt.len() <= CHUNK_SIZE {
        record_bytes(sealed_at(alg, key, base, counter, pt))
    } else {
        record_bytes(sealed_at(alg, key, base, counter, pt.take(CHUNK_SIZE as int))) + records_from(
            alg,
            key,
            base,
            pt.skip(CHUNK_SIZE as int),
            counter + 1,
        )
    }
}

/// The whole container that encrypts `pt` under `key`.
pub open spec fn container_bytes(
    alg: Algorithm,
    key: Seq<u8>,
    salt: Seq<u8>,
    base: Seq<u8>,
    work_factor: u32,
    pt: Seq<u8>,
) -> Seq<u8> {
    header_bytes(alg, salt, base, work_factor) + records_from(alg, key, base, pt, 0)
}

/// The state of one encryption: cipher, key, nonce seed and chunk counter.
pub struct Sealer {
    pub algorithm: Algorithm,
    pub key: KeyMaterial,
    pub base_nonce: Vec<u8>,
    pub nonces: CounterNonceSequence,
}

impl Sealer {
    /// The key and nonce seed have the sizes that the cipher needs.
    pub open spec fn wf(&self) -> bool {
        &&& self.key.key@.len() == KEY_SIZE
        &&& self.base_nonce@.len() == algorithm_nonce_size(self.algorithm)
    }

    /// Seals the next chunk under the next nonce and returns its record.
    pub fn seal_chunk(&mut self, chunk: &[u8]) -> (r: Result<Vec<u8>, VaultError>)
        requires
            old(self).wf(),
            chunk@.len() <= CHUNK_SIZE,
        ensures
            final(self).wf(),
            final(self).algorithm == old(self).algorithm,
            final(self).key.key@ == old(self).key.key@,
            final(self).base_nonce@ == old(self).base_nonce@,
            old(self).nonces.counter == u64::MAX ==> r is Err,
            old(self).nonces.counter < u64::MAX ==> r is Ok,
            match r {
                Ok(rec) => old(self).nonces.counter < u64::MAX && final(self).nonces.counter
                    == old(self).nonces.counter + 1 && rec@ == record_bytes(
                    sealed_at(
                        old(self).algorithm,
                        old(self).key.key@,
                        old(self).base_nonce@,
                        old(self).nonces.counter as nat,
                        chunk@,
                    ),
                ) && sealed_at(
                    old(self).algorithm,
                    old(self).key.key@,
                    old(self).base_nonce@,
                    old(self).nonces.counter as nat,
                    chunk@,
                ).len() == chunk@.len() + TAG_SIZE,
                Err(e) => e is EncryptionError,
            },
    {
        let nonce = match self.nonces.advance(self.algorithm, self.base_nonce.as_slice()) {
            Some(n) => n,
            None => {
                return Err(VaultError::EncryptionError(String::from_str("nonce counter exhausted")));
            },
        };
        match aead_seal(self.algorithm, self.key.key.as_slice(), nonce.as_slice(), chunk) {
            Some(sealed) => Ok(frame_record(sealed.as_slice())),
            None => Err(VaultError::EncryptionError(String::from_str("sealing failed"))),
        }
    }

    /// Ends the encryption: the key bytes are wiped.
    pub fn finish(&mut self)
        ensures
            final(self).key.key@.len() == 0,
    {
        self.key.wipe();
    }
}

/// The state of one decryption: cipher, key, nonce seed and chunk counter.
pub struct Opener {
    pub algorithm: Algorithm,
    pub key: KeyMaterial,
    pub base_nonce: Vec<u8>,
    pub nonces: CounterNonceSequence,
}

impl Opener {
    /// The key and nonce seed have the sizes that the cipher needs.
    pub open spec fn wf(&self) -> bool {
        &&& self.key.key@.len() == KEY_SIZE
        &&& self.base_nonce@.len() == algorithm_nonce_size(self.algorithm)
    }

    /// Opens the next sealed chunk under the next nonce. A chunk that is not
    /// the sealing of some plaintext under that nonce fails with
    /// `AuthenticationFailed`; a sealing of a plaintext of at most a chunk's
    /// size opens to that plaintext.
    pub fn open_chunk(&mut self, sealed: &[u8]) -> (r: Result<Vec<u8>, VaultError>)
        requires
            old(self).wf(),
        ensures
            final(self).wf(),
            final(self).algorithm == old(self).algorithm,
            final(self).key.key@ == old(self).key.key@,
            final(self).base_nonce@ == old(self).base_nonce@,
            match r {
                Ok(p) => old(self).nonces.counter < u64::MAX && final(self).nonces.counter
                    == old(self).nonces.counter + 1 && sealed@ == sealed_at(
                    old(self).algorithm,
                    old(self).key.key@,
                    old(self).base_nonce@,
                    old(self).nonces.counter as nat,
                    p@,
                ) && p@.len() + TAG_SIZE == sealed@.len(),
                Err(e) => (e is AuthenticationFailed && old(self).nonces.counter < u64::MAX) || (
                e is DecryptionError && old(self).nonces.counter == u64::MAX),
            },
            forall|p: Seq<u8>|
                old(self).nonces.counter < u64::MAX && p.len() <= CHUNK_SIZE && sealed@
                    == #[trigger] sealed_at(
                    old(self).algorithm,
                    old(self).key.key@,
                    old(self).base_nonce@,
                    old(self).nonces.counter as nat,
                    p,
                ) ==> r is Ok && r->Ok_0@ == p,
    {
        let ghost counter = self.nonces.counter;
        let nonce = match self.nonces.advance(self.algorithm, self.base_nonce.as_slice()) {
            Some(n) => n,
            None => {
                return Err(VaultError::DecryptionError(String::from_str("nonce counter exhausted")));
            },
        };
        let opened = aead_open(self.algorithm, self.key.key.as_slice(), nonce.as_slice(), sealed);
        proof {
            assert forall|p: Seq<u8>|
                p.len() <= CHUNK_SIZE && sealed@ == #[trigger] sealed_at(
                    self.algorithm,
                    self.key.key@,
                    self.base_nonce@,
                    counter as nat,
                    p,
                ) implies opened is Some && opened->Some_0@ == p by {
                assert(sealed_at(self.algorithm, self.key.key@, self.base_nonce@, counter as nat, p)
                    == sealed_chunk(algorithm_byte(self.algorithm), self.key.key@, nonce@, p));
            }
        }
        match opened {
            Some(p) => Ok(p),
            None => Err(VaultError::AuthenticationFailed),
        }
    }

    /// Ends the decryption: the key bytes are wiped.
    pub fn finish(&mut self)
        ensures
            final(self).key.key@.len() == 0,
    {
        self.key.wipe();
    }
}

/// Starts an encryption with the given salt and nonce seed: derives the key
/// and returns the header to write and the state that seals the chunks.
pub fn begin_encryption(
    password: &[u8],
    algorithm: Algorithm,
    work_factor: u32,
    salt: Vec<u8>,
    base_nonce: Vec<u8>,
) -> (r: Result<(Vec<u8>, Sealer), VaultError>)
    requires
        salt@.len() == SALT_SIZE,
        base_nonce@.len() == algorithm_nonce_size(algorithm),
    ensures
        match derived_key(password@, salt@, work_factor) {
            Some(k) => r is Ok && r->Ok_0.0@ == header_bytes(
                algorithm,
                salt@,
                base_nonce@,
                work_factor,
            ) && r->Ok_0.1.wf() && r->Ok_0.1.algorithm == algorithm && r->Ok_0.1.key.key@ == k
                && r->Ok_0.1.base_nonce@ == base_nonce@ && r->Ok_0.1.nonces.counter == 0,
            None => r matches Err(VaultError::KdfError(_)),
        },
        work_factor >= 1 && password@.len() <= 0xFFFFFFFF ==> r is Ok,
{
    let key = match derive_key(password, salt.as_slice(), work_factor) {
        Ok(k) => k,
        Err(e) => return Err(e),
    };
    let header = encode_header(algorithm, salt.as_slice(), base_nonce.as_slice(), work_factor);
    Ok((header, Sealer { algorithm, key, base_nonce, nonces: CounterNonceSequence::new() }))
}

/// Starts a decryption from a container's header: checks version and
/// cipher, re-derives the key from the stored salt and work factor, and
/// returns the state that opens the chunks.
pub fn begin_decryption(header: &[u8], password: &[u8]) -> (r: Result<Opener, VaultError>)
    ensures
        match parse_header_spec(header@) {
            Err(e) => same_outcome(
                match r {
                    Ok(o) => Ok(()),
                    Err(e) => Err(e),
                },
                Err(e),
            ),
            Ok((alg, salt, base, wf)) => match derived_key(password@, salt, wf) {
                Some(k) => r is Ok && r->Ok_0.wf() && r->Ok_0.algorithm == alg && r->Ok_0.key.key@
                    == k && r->Ok_0.base_nonce@ == base && r->Ok_0.nonces.counter == 0,
                None => r matches Err(VaultError::KdfError(_)),
            },
        },
{
    let h = match parse_header(header) {
        Ok(h) => h,
        Err(e) => return Err(e),
    };
    let key = match derive_key(password, h.salt.as_slice(), h.work_factor) {
        Ok(k) => k,
        Err(e) => return Err(e),
    };
    Ok(
        Opener {
            algorithm: h.algorithm,
            key,
            base_nonce: h.base_nonce,
            nonces: CounterNonceSequence::new(),
        },
    )
}

/// Every chunk of `pt`, cut as `records_from` cuts it, seals to its own
/// length plus one tag.
pub open spec fn sealings_sized(
    alg: Algorithm,
    key: Seq<u8>,
    base: Seq<u8>,
    pt: Seq<u8>,
    counter: nat,
) -> bool
    decreases pt.len(),
{
    if pt.len() <= CHUNK_SIZE {
        sealed_at(alg, key, base, counter, pt).len() == pt.len() + TAG_SIZE
    } else {
        &&& sealed_at(alg, key, base, counter, pt.take(CHUNK_SIZE as int)).len() == CHUNK_SIZE
            + TAG_SIZE
        &&& sealings_sized(alg, key, base, pt.skip(CHUNK_SIZE as int), counter + 1)
    }
}

/// A plaintext longer than two chunks and at most three is sealed as exactly
/// three records, numbered 0, 1 and 2: two full chunks and the rest, each
/// sealed to its length plus one tag.
pub proof fn lemma_three_records(alg: Algorithm, key: Seq<u8>, base: Seq<u8>, pt: Seq<u8>)
    requires
        2 * CHUNK_SIZE < pt.len() <= 3 * CHUNK_SIZE,
        sealings_sized(alg, key, base, pt, 0),
    ensures
        records_from(alg, key, base, pt, 0) == record_bytes(
            sealed_at(alg, key, base, 0, pt.subrange(0, CHUNK_SIZE as int)),
        ) + record_bytes(
            sealed_at(alg, key, base, 1, pt.subrange(CHUNK_SIZE as int, 2 * CHUNK_SIZE)),
        ) + record_bytes(
            sealed_at(alg, key, base, 2, pt.subrange(2 * CHUNK_SIZE, pt.len() as int)),
        ),
        sealed_at(alg, key, base, 0, pt.subrange(0, CHUNK_SIZE as int)).len() == CHUNK_SIZE
            + TAG_SIZE,
        sealed_at(alg, key, base, 1, pt.subrange(CHUNK_SIZE as int, 2 * CHUNK_SIZE)).len()
            == CHUNK_SIZE + TAG_SIZE,
        sealed_at(alg, key, base, 2, pt.subrange(2 * CHUNK_SIZE, pt.len() as int)).len() == pt.len()
            - 2 * CHUNK_SIZE + TAG_SIZE,
{
    reveal_with_fuel(records_from, 3);
    reveal_with_fuel(sealings_sized, 3);
    let r1 = pt.skip(CHUNK_SIZE as int);
    let r2 = r1.skip(CHUNK_SIZE as int);
    assert(r1.len() > CHUNK_SIZE);
    assert(r2.len() <= CHUNK_SIZE);
    assert(pt.take(CHUNK_SIZE as int) =~= pt.subrange(0, CHUNK_SIZE as int));
    assert(r1.take(CHUNK_SIZE as int) =~= pt.subrange(CHUNK_SIZE as int, 2 * CHUNK_SIZE));
    assert(r2 =~= pt.subrange(2 * CHUNK_SIZE, pt.len() as int));
    let a = record_bytes(sealed_at(alg, key, base, 0, pt.take(CHUNK_SIZE as int)));
    let b = record_bytes(sealed_at(alg, key, base, 1, r1.take(CHUNK_SIZE as int)));
    let c = record_bytes(sealed_at(alg, key, base, 2, r2));
    assert(records_from(alg, key, base, r1, 1) == b + c);
    assert(a + (b + c) =~= a + b + c);
}

/// An empty plaintext is sealed as exactly one record, numbered 0, whose
/// sealed bytes are the tag alone.
pub proof fn lemma_empty_one_record(alg: Algorithm, key: Seq<u8>, base: Seq<u8>, pt: Seq<u8>)
    requires
        pt.len() == 0,
        sealings_sized(alg, key, base, pt, 0),
    ensures
        records_from(alg, key, base, pt, 0) == record_bytes(sealed_at(alg, key, base, 0, pt)),
        sealed_at(alg, key, base, 0, pt).len() == TAG_SIZE,
{
}

/// `c` is the container that encrypts `pt` under `password` with the given
/// cipher, salt, nonce seed and work factor.
pub open spec fn is_encryption(
    c: Seq<u8>,
    password: Seq<u8>,
    alg: Algorithm,
    salt: Seq<u8>,
    base: Seq<u8>,
    work_factor: u32,
    pt: Seq<u8>,
) -> bool {
    &&& salt.len() == SALT_SIZE
    &&& base.len() == algorithm_nonce_size(alg)
    &&& derived_key(password, salt, work_factor) is Some
    &&& c == container_bytes(
        alg,
        derived_key(password, salt, work_factor)->Some_0,
        salt,
        base,
        work_factor,
        pt,
    )
    &&& sealings_sized(alg, derived_key(password, salt, work_factor)->Some_0, base, pt, 0)
}

/// Encrypts a whole plaintext held in memory with the given salt and nonce
/// seed.
pub fn encrypt_bytes(
    plaintext: &[u8],
    password: &[u8],
    algorithm: Algorithm,
    work_factor: u32,
    salt: Vec<u8>,
    base_nonce: Vec<u8>,
) -> (r: Result<Vec<u8>, VaultError>)
    requires
        salt@.len() == SALT_SIZE,
        base_nonce@.len() == algorithm_nonce_size(algorithm),
    ensures
        match derived_key(password@, salt@, work_factor) {
            Some(k) => match r {
                Ok(c) => c@ == container_bytes(
                    algorithm,
                    k,
                    salt@,
                    base_nonce@,
                    work_factor,
                    plaintext@,
                ) && is_encryption(
                    c@,
                    password@,
                    algorithm,
                    salt@,
                    base_nonce@,
                    work_factor,
                    plaintext@,
                ),
                Err(e) => false,
            },
            None => r matches Err(VaultError::KdfError(_)),
        },
        work_factor >= 1 && password@.len() <= 0xFFFFFFFF ==> r is Ok,
{
    let ghost salt_v = salt@;
    let ghost base_v = base_nonce@;
    let (mut out, mut sealer) = match begin_encryption(
        password,
        algorithm,
        work_factor,
        salt,
        base_nonce,
    ) {
        Ok(x) => x,
        Err(e) => return Err(e),
    };
    let ghost key = sealer.key.key@;
    let ghost whole = container_bytes(algorithm, key, salt_v, base_v, work_factor, plaintext@);
    let n = plaintext.len();
    let mut off: usize = 0;
    let mut done = false;
    assert(plaintext@.skip(0) =~= plaintext@);
    while !done
        invariant
            sealer.wf(),
            sealer.algorithm == algorithm,
            sealer.key.key@ == key,
            sealer.base_nonce@ == base_v,
            n == plaintext@.len(),
            off <= n,
            !done ==> sealer.nonces.counter as int * CHUNK_SIZE <= off,
            derived_key(password@, salt_v, work_factor) == Some(key),
            salt_v == salt@,
            base_v == base_nonce@,
            whole == container_bytes(algorithm, key, salt_v, base_v, work_factor, plaintext@),
            done ==> out@ == whole && sealings_sized(algorithm, key, base_v, plaintext@, 0),
            !done ==> out@ + records_from(
                algorithm,
                key,
                base_v,
                plaintext@.skip(off as int),
                sealer.nonces.counter as nat,
            ) == whole,
            !done ==> (sealings_sized(
                algorithm,
                key,
                base_v,
                plaintext@.skip(off as int),
                sealer.nonces.counter as nat,
            ) ==> sealings_sized(algorithm, key, base_v, plaintext@, 0)),
        decreases n - off + (if done {
            0int
        } else {
            1int
        }),
    {
        let rem = n - off;
        let end = if rem <= CHUNK_SIZE {
            n
        } else {
            off + CHUNK_SIZE
        };
        let chunk = copy_range(plaintext, off, end);
        let ghost c = sealer.nonces.counter as nat;
        let ghost rest = plaintext@.skip(off as int);
        let ghost before = out@;
        let rec = match sealer.seal_chunk(chunk.as_slice()) {
            Ok(rec) => rec,
            Err(e) => {
                sealer.finish();
                return Err(e);
            },
        };
        append_bytes(&mut out, rec.as_slice());
        proof {
            if rem <= CHUNK_SIZE {
                assert(chunk@ =~= rest);
            } else {
                assert(chunk@ =~= rest.take(CHUNK_SIZE as int));
                assert(rest.skip(CHUNK_SIZE as int) =~= plaintext@.skip(end as int));
                let tail = records_from(algorithm, key, base_v, rest.skip(CHUNK_SIZE as int), c + 1);
                assert(before + (rec@ + tail) =~= (before + rec@) + tail);
            }
        }
        if rem <= CHUNK_SIZE {
            done = true;
        } else {
            off = end;
        }
    }
    sealer.finish();
    Ok(out)
}

/// The records of `chunks`, chunk `i` sealed under counter `i`.
pub open spec fn sealed_records(
    alg: Algorithm,
    key: Seq<u8>,
    base: Seq<u8>,
    chunks: Seq<Seq<u8>>,
) -> Seq<u8>
    decreases chunks.len(),
{
    if chunks.len() == 0 {
        Seq::empty()
    } else {
        sealed_records(alg, key, base, chunks.drop_last()) + record_bytes(
            sealed_at(alg, key, base, (chunks.len() - 1) as nat, chunks.last()),
        )
    }
}

/// The chunks one after the other.
pub open spec fn concat_chunks(chunks: Seq<Seq<u8>>) -> Seq<u8>
    decreases chunks.len(),
{
    if chunks.len() == 0 {
        Seq::empty()
    } else {
        concat_chunks(chunks.drop_last()) + chunks.last()
    }
}

/// `c` is a header that parses, followed by nothing but the records that
/// seal `chunks` under the key derived from `password` and the header's
/// salt and work factor.
pub open spec fn authentic_container(c: Seq<u8>, password: Seq<u8>, chunks: Seq<Seq<u8>>) -> bool {
    match parse_header_spec(c) {
        Ok((alg, salt, base, wf)) => match derived_key(password, salt, wf) {
            Some(k) => c.skip(header_size(alg) as int) == sealed_records(alg, k, base, chunks),
            None => false,
        },
        Err(_) => false,
    }
}

/// The chunk that `records_from` seals first out of `rest`.
pub open spec fn first_chunk(rest: Seq<u8>) -> Seq<u8> {
    if rest.len() <= CHUNK_SIZE {
        rest
    } else {
        rest.take(CHUNK_SIZE as int)
    }
}

/// Where a decryption of the container that encrypts `pt` stands: either all
/// of `pt` is out and the container is used up, or chunks `0..counter` are
/// out and the records of the rest start at `pos`.
pub open spec fn decode_inv(
    c: Seq<u8>,
    alg: Algorithm,
    key: Seq<u8>,
    base: Seq<u8>,
    pt: Seq<u8>,
    out: Seq<u8>,
    pos: int,
    counter: nat,
) -> bool {
    ||| (out == pt && pos == c.len())
    ||| {
        &&& counter * CHUNK_SIZE <= pt.len()
        &&& counter * CHUNK_SIZE <= pos <= c.len()
        &&& out == pt.take(counter * CHUNK_SIZE)
        &&& c.skip(pos) == records_from(alg, key, base, pt.skip(counter * CHUNK_SIZE), counter)
        &&& sealings_sized(alg, key, base, pt.skip(counter * CHUNK_SIZE), counter)
    }
}

/// What the next record at `pos` holds, for a decryption standing at
/// `decode_inv` with bytes left.
pub open spec fn step_facts(
    c: Seq<u8>,
    alg: Algorithm,
    key: Seq<u8>,
    base: Seq<u8>,
    pt: Seq<u8>,
    out: Seq<u8>,
    pos: int,
    counter: nat,
) -> bool {
    let ch = first_chunk(pt.skip(counter * CHUNK_SIZE));
    let s = sealed_at(alg, key, base, counter, ch);
    &&& counter < u64::MAX
    &&& ch.len() <= CHUNK_SIZE
    &&& s.len() == ch.len() + TAG_SIZE
    &&& pos + 4 + s.len() <= c.len()
    &&& c.subrange(pos, pos + 4) == spec_u32_to_le_bytes(s.len() as u32)
    &&& c.subrange(pos + 4, pos + 4 + s.len()) == s
    &&& decode_inv(c, alg, key, base, pt, out + ch, pos + 4 + s.len(), counter + 1)
}

proof fn lemma_decode_step(
    c: Seq<u8>,
    alg: Algorithm,
    key: Seq<u8>,
    base: Seq<u8>,
    pt: Seq<u8>,
    out: Seq<u8>,
    pos: int,
    counter: nat,
)
    requires
        c.len() <= usize::MAX,
        0 <= pos < c.len(),
        decode_inv(c, alg, key, base, pt, out, pos, counter),
    ensures
        step_facts(c, alg, key, base, pt, out, pos, counter),
{
    lemma_auto_spec_u32_to_from_le_bytes();
    let off = counter * CHUNK_SIZE;
    let rest = pt.skip(off);
    let ch = first_chunk(rest);
    let s = sealed_at(alg, key, base, counter, ch);
    let le = spec_u32_to_le_bytes(s.len() as u32);
    let tail = if rest.len() <= CHUNK_SIZE {
        Seq::<u8>::empty()
    } else {
        records_from(alg, key, base, rest.skip(CHUNK_SIZE as int), counter + 1)
    };
    assert(records_from(alg, key, base, rest, counter) =~= le + s + tail);
    let cs = c.skip(pos);
    assert(cs == le + s + tail);
    assert(c.subrange(pos, pos + 4) =~= cs.subrange(0, 4));
    assert(cs.subrange(0, 4) =~= le);
    assert(c.subrange(pos + 4, pos + 4 + s.len()) =~= cs.subrange(4, 4 + s.len() as int));
    assert(cs.subrange(4, 4 + s.len() as int) =~= s);
    let npos = pos + 4 + s.len();
    assert(le.len() == 4);
    assert(cs.skip(4 + s.len() as int) =~= tail);
    assert(c.skip(npos) =~= cs.skip(4 + s.len() as int));
    if rest.len() <= CHUNK_SIZE {
        assert(out + ch =~= pt);
    } else {
        assert(out + ch =~= pt.take(off + CHUNK_SIZE));
        assert(rest.skip(CHUNK_SIZE as int) =~= pt.skip((counter + 1) * CHUNK_SIZE));
    }
}

proof fn lemma_decode_done(
    c: Seq<u8>,
    alg: Algorithm,
    key: Seq<u8>,
    base: Seq<u8>,
    pt: Seq<u8>,
    out: Seq<u8>,
    counter: nat,
)
    requires
        decode_inv(c, alg, key, base, pt, out, c.len() as int, counter),
    ensures
        out == pt,
{
    lemma_auto_spec_u32_to_from_le_bytes();
    if out != pt {
        let rest = pt.skip(counter * CHUNK_SIZE);
        let ch = first_chunk(rest);
        let s = sealed_at(alg, key, base, counter, ch);
        assert(records_from(alg, key, base, rest, counter).len() >= spec_u32_to_le_bytes(
            s.len() as u32,
        ).len());
        assert(c.skip(c.len() as int).len() == 0);
    }
}

/// Whether `sealed` opens as record number `counter`: it is the sealing of
/// some plaintext of at most a chunk's size under that record's nonce.
pub open spec fn opens_at(
    alg: Algorithm,
    key: Seq<u8>,
    base: Seq<u8>,
    counter: nat,
    sealed: Seq<u8>,
) -> bool {
    exists|p: Seq<u8>| p.len() <= CHUNK_SIZE && sealed == #[trigger] sealed_at(alg, key, base, counter, p)
}

/// `o` put in front of a successful result; an error stays as it is.
pub open spec fn prepend(o: Seq<u8>, r: Result<Seq<u8>, VaultError>) -> Result<Seq<u8>, VaultError> {
    match r {
        Ok(x) => Ok(o + x),
        Err(e) => Err(e),
    }
}

/// What decrypting the records in `rest`, the first of them numbered
/// `counter`, yields. The records are read in order and the first failure
/// ends the decryption: bytes that stop inside a length field or inside a
/// record give `IoError`; a length beyond a full chunk and its tag gives
/// `InvalidFormat`; a record that does not open under its own nonce (wrong
/// key, altered bytes, a record out of place) gives `AuthenticationFailed`.
/// Ending exactly at a record boundary is the normal end.
pub open spec fn decode_records(
    alg: Algorithm,
    key: Seq<u8>,
    base: Seq<u8>,
    rest: Seq<u8>,
    counter: nat,
) -> Result<Seq<u8>, VaultError>
    decreases rest.len(),
{
    if rest.len() == 0 {
        Ok(Seq::empty())
    } else if rest.len() < LENGTH_PREFIX_SIZE {
        Err(VaultError::IoError(arbitrary()))
    } else {
        let len = spec_u32_from_le_bytes(rest.subrange(0, 4));
        if len > CHUNK_SIZE + TAG_SIZE {
            Err(VaultError::InvalidFormat(arbitrary()))
        } else if rest.len() - 4 < len {
            Err(VaultError::IoError(arbitrary()))
        } else {
            let sealed = rest.subrange(4, 4 + len);
            if !opens_at(alg, key, base, counter, sealed) {
                Err(VaultError::AuthenticationFailed)
            } else {
                let p = choose|p: Seq<u8>|
                    p.len() <= CHUNK_SIZE && sealed == #[trigger] sealed_at(
                        alg,
                        key,
                        base,
                        counter,
                        p,
                    );
                prepend(p, decode_records(alg, key, base, rest.skip(4 + len), counter + 1))
            }
        }
    }
}

/// What decrypting container `c` under `password` yields: the header's
/// error, `KdfError` where no key can be derived, or what decrypting its
/// records yields.
pub open spec fn decrypt_spec(c: Seq<u8>, password: Seq<u8>) -> Result<Seq<u8>, VaultError> {
    match parse_header_spec(c) {
        Err(e) => Err(e),
        Ok((alg, salt, base, wf)) => match derived_key(password, salt, wf) {
            None => Err(VaultError::KdfError(arbitrary())),
            Some(k) => decode_records(alg, k, base, c.skip(header_size(alg) as int), 0),
        },
    }
}

/// Decrypts a whole container held in memory. The outcome is `decrypt_spec`:
/// it succeeds exactly when the header parses, a key is derived and every
/// record opens in order, and otherwise fails with the error of the first
/// failure, the same `AuthenticationFailed` for a wrong password as for an
/// altered or misplaced record.
///
/// Decrypting the encryption of a plaintext under the same password gives
/// that plaintext back; a container with an unknown version or cipher is
/// refused with the error that names it.
pub fn decrypt_bytes(container: &[u8], password: &[u8]) -> (r: Result<Vec<u8>, VaultError>)
    ensures
        forall|alg: Algorithm, salt: Seq<u8>, base: Seq<u8>, wf: u32, pt: Seq<u8>|
            #[trigger] is_encryption(container@, password@, alg, salt, base, wf, pt) ==> r is Ok
                && r->Ok_0@ == pt,
        match parse_header_spec(container@) {
            Err(e) => same_outcome(
                match r {
                    Ok(o) => Ok(()),
                    Err(x) => Err(x),
                },
                Err(e),
            ),
            Ok(_) => true,
        },
        r is Ok ==> exists|chunks: Seq<Seq<u8>>|
            #[trigger] authentic_container(container@, password@, chunks) && r->Ok_0@
                == concat_chunks(chunks),
        same_outcome(
            match r {
                Ok(o) => Ok(o@),
                Err(x) => Err(x),
            },
            decrypt_spec(container@, password@),
        ),
{
    proof {
        assert forall|alg: Algorithm, salt: Seq<u8>, base: Seq<u8>, wf: u32, pt: Seq<u8>|
            #[trigger] is_encryption(
                container@,
                password@,
                alg,
                salt,
                base,
                wf,
                pt,
            ) implies parse_header_spec(container@) == Ok::<
            (Algorithm, Seq<u8>, Seq<u8>, u32),
            VaultError,
        >((alg, salt, base, wf)) by {
            let k = derived_key(password@, salt, wf)->Some_0;
            lemma_header_round_trip(alg, salt, base, wf, records_from(alg, k, base, pt, 0));
        }
    }
    let mut opener = match begin_decryption(container, password) {
        Ok(o) => o,
        Err(e) => return Err(e),
    };
    let ghost a0 = opener.algorithm;
    let ghost k0 = opener.key.key@;
    let ghost b0 = opener.base_nonce@;
    let ghost salt0 = parse_header_spec(container@)->Ok_0.1;
    let ghost wf0 = parse_header_spec(container@)->Ok_0.3;
    let ghost mut chunks: Seq<Seq<u8>> = Seq::empty();
    let n = container.len();
    let hl = header_len(opener.algorithm);
    let mut pos: usize = hl;
    let mut out: Vec<u8> = Vec::new();
    assert(container@.subrange(hl as int, pos as int) =~= sealed_records(a0, k0, b0, chunks));
    assert(out@ =~= concat_chunks(chunks));
    proof {
        assert forall|alg: Algorithm, salt: Seq<u8>, base: Seq<u8>, wf: u32, pt: Seq<u8>|
            #[trigger] is_encryption(
                container@,
                password@,
                alg,
                salt,
                base,
                wf,
                pt,
            ) implies alg == a0 && base == b0 && derived_key(password@, salt, wf) == Some(k0)
            && decode_inv(container@, a0, k0, b0, pt, out@, pos as int, 0) by {
            let h = header_bytes(alg, salt, base, wf);
            let recs = records_from(alg, k0, base, pt, 0);
            lemma_auto_spec_u32_to_from_le_bytes();
            assert(parse_header_spec(container@) == Ok::<
                (Algorithm, Seq<u8>, Seq<u8>, u32),
                VaultError,
            >((alg, salt, base, wf)));
            assert(derived_key(password@, salt, wf) == Some(k0));
            assert(h.len() == header_size(alg));
            assert(container@ == h + recs);
            assert(container@.skip(pos as int) =~= recs);
            assert(pt.skip(0) =~= pt);
            assert(pt.take(0) =~= out@);
        }
    }
    while pos < n
        invariant
            opener.wf(),
            opener.algorithm == a0,
            opener.key.key@ == k0,
            opener.base_nonce@ == b0,
            n == container@.len(),
            pos <= n,
            forall|alg: Algorithm, salt: Seq<u8>, base: Seq<u8>, wf: u32, pt: Seq<u8>|
                #[trigger] is_encryption(container@, password@, alg, salt, base, wf, pt) ==> alg
                    == a0 && base == b0 && derived_key(password@, salt, wf) == Some(k0)
                    && decode_inv(
                    container@,
                    a0,
                    k0,
                    b0,
                    pt,
                    out@,
                    pos as int,
                    opener.nonces.counter as nat,
                ),
            parse_header_spec(container@) == Ok::<
                (Algorithm, Seq<u8>, Seq<u8>, u32),
                VaultError,
            >((a0, salt0, b0, wf0)),
            derived_key(password@, salt0, wf0) == Some(k0),
            hl == header_size(a0),
            hl <= pos,
            chunks.len() == opener.nonces.counter,
            container@.subrange(hl as int, pos as int) == sealed_records(a0, k0, b0, chunks),
            out@ == concat_chunks(chunks),
            opener.nonces.counter * 4 <= pos - hl,
            decode_records(a0, k0, b0, container@.skip(hl as int), 0) == prepend(
                out@,
                decode_records(a0, k0, b0, container@.skip(pos as int), opener.nonces.counter as nat),
            ),
        decreases n - pos,
    {
        let ghost c0 = opener.nonces.counter as nat;
        let ghost out0 = out@;
        let ghost pos0 = pos as int;
        proof {
            lemma_auto_spec_u32_to_from_le_bytes();
            assert forall|alg: Algorithm, salt: Seq<u8>, base: Seq<u8>, wf: u32, pt: Seq<u8>|
                #[trigger] is_encryption(
                    container@,
                    password@,
                    alg,
                    salt,
                    base,
                    wf,
                    pt,
                ) implies step_facts(container@, a0, k0, b0, pt, out0, pos0, c0) by {
                lemma_decode_step(container@, a0, k0, b0, pt, out0, pos0, c0);
            }
        }
        let ghost rest = container@.skip(pos as int);
        let ghost whole = decode_records(a0, k0, b0, container@.skip(hl as int), 0);
        if n - pos < LENGTH_PREFIX_SIZE {
            opener.finish();
            return Err(VaultError::IoError(String::from_str("truncated chunk length")));
        }
        let prefix = copy_range(container, pos, pos + LENGTH_PREFIX_SIZE);
        let len = record_len(prefix.as_slice()) as usize;
        assert(prefix@ =~= rest.subrange(0, 4));
        if len > CHUNK_SIZE + TAG_SIZE {
            opener.finish();
            return Err(VaultError::InvalidFormat(String::from_str("chunk too long")));
        }
        if n - pos - LENGTH_PREFIX_SIZE < len {
            opener.finish();
            return Err(VaultError::IoError(String::from_str("truncated chunk")));
        }
        let sealed = copy_range(
            container,
            pos + LENGTH_PREFIX_SIZE,
            pos + LENGTH_PREFIX_SIZE + len,
        );
        assert(sealed@ =~= rest.subrange(4, 4 + len as int));
        let p = match opener.open_chunk(sealed.as_slice()) {
            Ok(p) => p,
            Err(e) => {
                proof {
                    if opens_at(a0, k0, b0, c0, sealed@) {
                        let w = choose|w: Seq<u8>|
                            w.len() <= CHUNK_SIZE && sealed@ == #[trigger] sealed_at(
                                a0,
                                k0,
                                b0,
                                c0,
                                w,
                            );
                        assert(sealed_at(a0, k0, b0, c0, w) == sealed@);
                    }
                }
                opener.finish();
                return Err(e);
            },
        };
        proof {
            assert(sealed_at(a0, k0, b0, c0, p@) == sealed@);
            assert(opens_at(a0, k0, b0, c0, sealed@));
            let q = choose|q: Seq<u8>|
                q.len() <= CHUNK_SIZE && sealed@ == #[trigger] sealed_at(a0, k0, b0, c0, q);
            assert(sealed_at(a0, k0, b0, c0, q) == sealed@);
            assert(q == p@);
            assert(rest.skip(4 + len as int) =~= container@.skip(pos + 4 + len as int));
            let tail = decode_records(a0, k0, b0, rest.skip(4 + len as int), c0 + 1);
            assert(decode_records(a0, k0, b0, rest, c0) == prepend(p@, tail));
            match tail {
                Ok(x) => {
                    assert(out0 + (p@ + x) =~= (out0 + p@) + x);
                },
                Err(_) => {},
            }
        }
        append_bytes(&mut out, p.as_slice());
        proof {
            let next = chunks.push(p@);
            assert(next.drop_last() =~= chunks);
            assert(sealed.len() as u32 == len as u32);
            assert(container@.subrange(hl as int, (pos + LENGTH_PREFIX_SIZE + len) as int)
                =~= container@.subrange(hl as int, pos as int) + prefix@ + sealed@);
            assert(sealed_records(a0, k0, b0, next) =~= sealed_records(a0, k0, b0, chunks)
                + record_bytes(sealed@));
            assert(concat_chunks(next) =~= out@);
            chunks = next;
        }
        pos = pos + LENGTH_PREFIX_SIZE + len;
    }
    assert(container@.subrange(hl as int, pos as int) =~= container@.skip(hl as int));
    assert(authentic_container(container@, password@, chunks));
    assert(container@.skip(pos as int) =~= Seq::<u8>::empty());
    assert(out@ + Seq::<u8>::empty() =~= out@);
    proof {
        assert forall|alg: Algorithm, salt: Seq<u8>, base: Seq<u8>, wf: u32, pt: Seq<u8>|
            #[trigger] is_encryption(
                container@,
                password@,
                alg,
                salt,
                base,
                wf,
                pt,
            ) implies out@ == pt by {
            lemma_decode_done(container@, a0, k0, b0, pt, out@, opener.nonces.counter as nat);
        }
    }
    opener.finish();
    Ok(out)
}

} // verus!
