use crate::error::VaultError;
use crate::types::{
    algorithm_byte,
    algorithm_nonce_size,
    algorithm_of_byte,
    Algorithm,
    CHUNK_SIZE,
    TAG_SIZE,
};
use vstd::bytes::{
    lemma_auto_spec_u32_to_from_le_bytes,
    spec_u32_from_le_bytes,
    spec_u32_to_le_bytes,
    u32_from_le_bytes,
    u32_to_le_bytes,
};
use vstd::prelude::*;

verus! {

/// The container format version that this library reads and writes.
pub const VERSION: u8 = 1;

/// Size in bytes of the per-file salt.
pub const SALT_SIZE: usize = 32;

/// Size in bytes of a chunk record's length prefix.
pub const LENGTH_PREFIX_SIZE: usize = 4;

/// The decoded fields of a container header.
pub struct Header {
    pub algorithm: Algorithm,
    pub salt: Vec<u8>,
    pub base_nonce: Vec<u8>,
    pub work_factor: u32,
}

/// The bytes of a header: version, cipher identifier, salt, nonce seed, and
/// the work factor of the password hash as a little-endian `u32`, so that a
/// decryption derives the key with the work factor that the encryption used.
///
/// The nonce seed is as wide as the cipher's `nonce_size` (12 or 24 bytes);
/// both ciphers take 12-byte nonces per chunk, and ChaCha20-Poly1305's chunk
/// nonces do not read the seed (see `chunk_nonce`).
pub open spec fn header_bytes(alg: Algorithm, salt: Seq<u8>, base: Seq<u8>, work_factor: u32) -> Seq<
    u8,
> {
    seq![VERSION, algorithm_byte(alg)] + salt + base + spec_u32_to_le_bytes(work_factor)
}

/// Length of the header written for a cipher.
pub open spec fn header_size(alg: Algorithm) -> nat {
    (2 + SALT_SIZE + algorithm_nonce_size(alg) + 4) as nat
}

/// The cipher that the first two bytes of a container announce, or the
/// error that rejects the container before any chunk is looked at.
pub open spec fn peek_spec(b: Seq<u8>) -> Result<Algorithm, VaultError> {
    if b.len() < 1 {
        Err(VaultError::InvalidFormat(arbitrary()))
    } else if b[0] != VERSION {
        Err(VaultError::UnsupportedVersion(b[0]))
    } else if b.len() < 2 {
        Err(VaultError::InvalidFormat(arbitrary()))
    } else if algorithm_of_byte(b[1]) is None {
        Err(VaultError::UnsupportedAlgorithm(b[1]))
    } else {
        Ok(algorithm_of_byte(b[1])->Some_0)
    }
}

/// Whether two results agree up to the text that an error carries.
pub open spec fn same_outcome<T>(a: Result<T, VaultError>, b: Result<T, VaultError>) -> bool {
    match (a, b) {
        (Ok(x), Ok(y)) => x == y,
        (Err(VaultError::InvalidFormat(_)), Err(VaultError::InvalidFormat(_))) => true,
        (Err(VaultError::UnsupportedVersion(x)), Err(VaultError::UnsupportedVersion(y))) => x == y,
        (Err(VaultError::UnsupportedAlgorithm(x)), Err(VaultError::UnsupportedAlgorithm(y))) => x
            == y,
        (Err(VaultError::IoError(_)), Err(VaultError::IoError(_))) => true,
        (Err(VaultError::KdfError(_)), Err(VaultError::KdfError(_))) => true,
        (Err(VaultError::AuthenticationFailed), Err(VaultError::AuthenticationFailed)) => true,
        _ => false,
    }
}

/// The fields of the header at the start of `b`, or why there is none.
pub open spec fn parse_header_spec(b: Seq<u8>) -> Result<
    (Algorithm, Seq<u8>, Seq<u8>, u32),
    VaultError,
> {
    match peek_spec(b) {
        Err(e) => Err(e),
        Ok(alg) => if b.len() < header_size(alg) {
            Err(VaultError::InvalidFormat(arbitrary()))
        } else {
            let n = algorithm_nonce_size(alg);
            Ok(
                (
                    alg,
                    b.subrange(2, 2 + SALT_SIZE),
                    b.subrange(2 + SALT_SIZE, 2 + SALT_SIZE + n),
                    spec_u32_from_le_bytes(
                        b.subrange(2 + SALT_SIZE + n, 2 + SALT_SIZE + n + 4),
                    ),
                ),
            )
        },
    }
}

/// The spec view of a decoded header.
pub open spec fn header_view(h: Header) -> (Algorithm, Seq<u8>, Seq<u8>, u32) {
    (h.algorithm, h.salt@, h.base_nonce@, h.work_factor)
}

/// The length of the header that a cipher's containers start with.
pub fn header_len(alg: Algorithm) -> (r: usize)
    ensures
        r == header_size(alg),
{
    2 + SALT_SIZE + alg.nonce_size() + 4
}

/// Writes the header of a container.
pub fn encode_header(alg: Algorithm, salt: &[u8], base_nonce: &[u8], work_factor: u32) -> (r: Vec<
    u8,
>)
    requires
        salt@.len() == SALT_SIZE,
        base_nonce@.len() == algorithm_nonce_size(alg),
    ensures
        r@ == header_bytes(alg, salt@, base_nonce@, work_factor),
        r@.len() == header_size(alg),
{
    proof {
        lemma_auto_spec_u32_to_from_le_bytes();
    }
    let mut out: Vec<u8> = Vec::new();
    out.push(VERSION);
    out.push(alg.to_byte());
    append_bytes(&mut out, salt);
    append_bytes(&mut out, base_nonce);
    let wf = u32_to_le_bytes(work_factor);
    append_bytes(&mut out, wf.as_slice());
    assert(out@ =~= header_bytes(alg, salt@, base_nonce@, work_factor));
    out
}

/// Appends `src` to `dst`.
pub fn append_bytes(dst: &mut Vec<u8>, src: &[u8])
    ensures
        final(dst)@ == old(dst)@ + src@,
{
    let mut i: usize = 0;
    while i < src.len()
        invariant
            i <= src@.len(),
            dst@ == old(dst)@ + src@.subrange(0, i as int),
        decreases src@.len() - i,
    {
        dst.push(src[i]);
        i = i + 1;
        assert(dst@ =~= old(dst)@ + src@.subrange(0, i as int));
    }
    assert(src@.subrange(0, src@.len() as int) =~= src@);
}

/// Copies `b[start..end]` into a new vector.
pub fn copy_range(b: &[u8], start: usize, end: usize) -> (r: Vec<u8>)
    requires
        start <= end <= b@.len(),
    ensures
        r@ == b@.subrange(start as int, end as int),
{
    let mut out: Vec<u8> = Vec::new();
    let mut i: usize = start;
    while i < end
        invariant
            start <= i <= end <= b@.len(),
            out@ == b@.subrange(start as int, i as int),
        decreases end - i,
    {
        out.push(b[i]);
        i = i + 1;
        assert(out@ =~= b@.subrange(start as int, i as int));
    }
    out
}

/// Resolves the version and cipher from the first two bytes of a container,
/// rejecting an unknown version or cipher identifier before anything else.
/// The version is judged as soon as one byte is there.
pub fn peek_header(prefix: &[u8]) -> (r: Result<Algorithm, VaultError>)
    ensures
        same_outcome(r, peek_spec(prefix@)),
{
    if prefix.len() < 1 {
        return Err(VaultError::InvalidFormat(String::from_str("truncated header")));
    }
    let version = prefix[0];
    if version != VERSION {
        return Err(VaultError::UnsupportedVersion(version));
    }
    if prefix.len() < 2 {
        return Err(VaultError::InvalidFormat(String::from_str("truncated header")));
    }
    let id = prefix[1];
    match Algorithm::from_byte(id) {
        Some(alg) => Ok(alg),
        None => Err(VaultError::UnsupportedAlgorithm(id)),
    }
}

/// Reads the header at the start of a container.
pub fn parse_header(b: &[u8]) -> (r: Result<Header, VaultError>)
    ensures
        same_outcome(
            match r {
                Ok(h) => Ok(header_view(h)),
                Err(e) => Err(e),
            },
            parse_header_spec(b@),
        ),
        r is Ok ==> r->Ok_0.salt@.len() == SALT_SIZE && r->Ok_0.base_nonce@.len()
            == algorithm_nonce_size(r->Ok_0.algorithm),
{
    let alg = match peek_header(b) {
        Ok(a) => a,
        Err(e) => return Err(e),
    };
    let n = alg.nonce_size();
    if b.len() < header_len(alg) {
        return Err(VaultError::InvalidFormat(String::from_str("truncated header")));
    }
    let salt = copy_range(b, 2, 2 + SALT_SIZE);
    let base_nonce = copy_range(b, 2 + SALT_SIZE, 2 + SALT_SIZE + n);
    let wf_bytes = copy_range(b, 2 + SALT_SIZE + n, 2 + SALT_SIZE + n + 4);
    let work_factor = u32_from_le_bytes(wf_bytes.as_slice());
    Ok(Header { algorithm: alg, salt, base_nonce, work_factor })
}

/// A header reads back as the fields it was written from, whatever follows
/// it.
pub proof fn lemma_header_round_trip(
    alg: Algorithm,
    salt: Seq<u8>,
    base: Seq<u8>,
    work_factor: u32,
    rest: Seq<u8>,
)
    requires
        salt.len() == SALT_SIZE,
        base.len() == algorithm_nonce_size(alg),
    ensures
        parse_header_spec(header_bytes(alg, salt, base, work_factor) + rest) == Ok::<
            (Algorithm, Seq<u8>, Seq<u8>, u32),
            VaultError,
        >((alg, salt, base, work_factor)),
{
    lemma_auto_spec_u32_to_from_le_bytes();
    let h = header_bytes(alg, salt, base, work_factor);
    let b = h + rest;
    let n = algorithm_nonce_size(alg);
    assert(b[0] == VERSION);
    assert(b[1] == algorithm_byte(alg));
    assert(b.subrange(2, 2 + SALT_SIZE) =~= salt);
    assert(b.subrange(2 + SALT_SIZE, 2 + SALT_SIZE + n) =~= base);
    assert(b.subrange(2 + SALT_SIZE + n, 2 + SALT_SIZE + n + 4) =~= spec_u32_to_le_bytes(
        work_factor,
    ));
}

/// A container whose version byte is not this library's, or whose cipher
/// identifier names no cipher, is refused on its first two bytes alone.
pub proof fn lemma_header_rejection(b: Seq<u8>)
    requires
        b.len() >= 1,
        b[0] != VERSION || (b.len() >= 2 && algorithm_of_byte(b[1]) is None),
    ensures
        parse_header_spec(b) is Err,
        b[0] != VERSION ==> parse_header_spec(b) == Err::<
            (Algorithm, Seq<u8>, Seq<u8>, u32),
            VaultError,
        >(VaultError::UnsupportedVersion(b[0])),
        b[0] == VERSION ==> parse_header_spec(b) == Err::<
            (Algorithm, Seq<u8>, Seq<u8>, u32),
            VaultError,
        >(VaultError::UnsupportedAlgorithm(b[1])),
{
}

/// The record of one sealed chunk: its length as a little-endian `u32`, then
/// the sealed bytes.
pub open spec fn record_bytes(sealed: Seq<u8>) -> Seq<u8> {
    spec_u32_to_le_bytes(sealed.len() as u32) + sealed
}

/// Frames a sealed chunk as a record.
pub fn frame_record(sealed: &[u8]) -> (r: Vec<u8>)
    requires
        sealed@.len() <= u32::MAX,
    ensures
        r@ == record_bytes(sealed@),
{
    let mut out = u32_to_le_bytes(sealed.len() as u32);
    append_bytes(&mut out, sealed);
    out
}

/// Reads the length prefix of a record.
pub fn record_len(prefix: &[u8]) -> (r: u32)
    requires
        prefix@.len() == LENGTH_PREFIX_SIZE,
    ensures
        r == spec_u32_from_le_bytes(prefix@),
        prefix@ == spec_u32_to_le_bytes(r),
{
    proof {
        lemma_auto_spec_u32_to_from_le_bytes();
    }
    u32_from_le_bytes(prefix)
}

/// Judges the bytes read where the next record's length field should be:
/// none is the normal end of the container (`Ok(None)`); one to three is a
/// field cut short (`IoError`); four give the record's length, which may not
/// exceed a full chunk and its tag (`InvalidFormat` otherwise).
pub fn next_record_len(field: &[u8]) -> (r: Result<Option<usize>, VaultError>)
    requires
        field@.len() <= LENGTH_PREFIX_SIZE,
    ensures
        field@.len() == 0 ==> r == Ok::<Option<usize>, VaultError>(None),
        0 < field@.len() < LENGTH_PREFIX_SIZE ==> r matches Err(VaultError::IoError(_)),
        field@.len() == LENGTH_PREFIX_SIZE ==> {
            let len = spec_u32_from_le_bytes(field@);
            if len <= CHUNK_SIZE + TAG_SIZE {
                r == Ok::<Option<usize>, VaultError>(Some(len as usize))
            } else {
                r matches Err(VaultError::InvalidFormat(_))
            }
        },
{
    if field.len() == 0 {
        return Ok(None);
    }
    if field.len() < LENGTH_PREFIX_SIZE {
        return Err(VaultError::IoError(String::from_str("truncated chunk length")));
    }
    let len = record_len(field);
    if len as usize > CHUNK_SIZE + TAG_SIZE {
        return Err(VaultError::InvalidFormat(String::from_str("chunk too long")));
    }
    Ok(Some(len as usize))
}

/// Whether a chunk read from the input is the last one to seal: it is when
/// it is shorter than a full chunk, or when nothing follows it. A full chunk
/// followed by the end of input is thus sealed once, with no empty record
/// after it.
pub fn chunk_is_last(chunk_len: usize, following_len: usize) -> (r: bool)
    ensures
        r == (chunk_len < CHUNK_SIZE || following_len == 0),
{
    chunk_len < CHUNK_SIZE || following_len == 0
}

} // verus!
