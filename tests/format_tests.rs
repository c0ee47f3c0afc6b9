use secure_vault::format::{
    chunk_is_last, encode_header, frame_record, header_len, next_record_len, parse_header,
    peek_header, record_len, VERSION,
};
use secure_vault::types::CHUNK_SIZE;
use secure_vault::nonce::{derive_nonce, CounterNonceSequence};
use secure_vault::{Algorithm, CryptoEngine, VaultError};

#[test]
fn algorithm_registry() {
    assert_eq!(Algorithm::Aes256Gcm.to_byte(), 1);
    assert_eq!(Algorithm::ChaCha20Poly1305.to_byte(), 2);
    assert_eq!(Algorithm::from_byte(1), Some(Algorithm::Aes256Gcm));
    assert_eq!(Algorithm::from_byte(2), Some(Algorithm::ChaCha20Poly1305));
    assert_eq!(Algorithm::from_byte(0), None);
    assert_eq!(Algorithm::from_byte(3), None);
    assert_eq!(Algorithm::Aes256Gcm.nonce_size(), 12);
    assert_eq!(Algorithm::ChaCha20Poly1305.nonce_size(), 24);
    assert_eq!(Algorithm::Aes256Gcm.tag_size(), 16);
    assert_eq!(Algorithm::ChaCha20Poly1305.tag_size(), 16);
}

#[test]
fn engine_new_keeps_fields() {
    let e = CryptoEngine::new(Algorithm::ChaCha20Poly1305, 7);
    assert_eq!(e.algorithm, Algorithm::ChaCha20Poly1305);
    assert_eq!(e.iterations, 7);
}

#[test]
fn header_layout_and_round_trip() {
    let salt = [7u8; 32];
    let base = [9u8; 12];
    let h = encode_header(Algorithm::Aes256Gcm, &salt, &base, 0x01020304);
    assert_eq!(h.len(), 50);
    assert_eq!(header_len(Algorithm::Aes256Gcm), 50);
    assert_eq!(header_len(Algorithm::ChaCha20Poly1305), 62);
    assert_eq!(h[0], VERSION);
    assert_eq!(h[1], 1);
    assert_eq!(&h[2..34], &salt[..]);
    assert_eq!(&h[34..46], &base[..]);
    assert_eq!(&h[46..50], &[4u8, 3, 2, 1][..]);
    let parsed = parse_header(&h).unwrap();
    assert_eq!(parsed.algorithm, Algorithm::Aes256Gcm);
    assert_eq!(parsed.salt, salt.to_vec());
    assert_eq!(parsed.base_nonce, base.to_vec());
    assert_eq!(parsed.work_factor, 0x01020304);
}

#[test]
fn header_rejects_unknown_version_and_algorithm() {
    assert!(matches!(peek_header(&[2, 1]), Err(VaultError::UnsupportedVersion(2))));
    assert!(matches!(peek_header(&[1, 9]), Err(VaultError::UnsupportedAlgorithm(9))));
    assert!(matches!(peek_header(&[1]), Err(VaultError::InvalidFormat(_))));
    assert!(matches!(peek_header(&[5]), Err(VaultError::UnsupportedVersion(5))));
    assert_eq!(peek_header(&[1, 2]).unwrap(), Algorithm::ChaCha20Poly1305);
    assert!(matches!(parse_header(&[1, 1, 0, 0]), Err(VaultError::InvalidFormat(_))));
}

#[test]
fn record_framing() {
    let r = frame_record(&[0xaa; 300]);
    assert_eq!(r.len(), 304);
    assert_eq!(&r[0..4], &[0x2c, 0x01, 0, 0][..]);
    assert_eq!(record_len(&r[0..4]), 300);
}

#[test]
fn chacha_nonce_is_zero_prefixed_counter() {
    let base = [0xffu8; 24];
    let n = derive_nonce(Algorithm::ChaCha20Poly1305, &base, 0x0102);
    assert_eq!(n, vec![0, 0, 0, 0, 2, 1, 0, 0, 0, 0, 0, 0]);
}

#[test]
fn aes_nonce_mixes_counter_into_seed() {
    let base = [0x0fu8; 12];
    let n = derive_nonce(Algorithm::Aes256Gcm, &base, 0xf0);
    assert_eq!(n, vec![0x0f, 0x0f, 0x0f, 0x0f, 0xff, 0x0f, 0x0f, 0x0f, 0x0f, 0x0f, 0x0f, 0x0f]);
}

#[test]
fn nonces_of_a_session_are_distinct() {
    for alg in [Algorithm::Aes256Gcm, Algorithm::ChaCha20Poly1305] {
        let base = vec![0x5au8; alg.nonce_size()];
        let mut seq = CounterNonceSequence::new();
        let mut seen: Vec<Vec<u8>> = Vec::new();
        for _ in 0..300 {
            let n = seq.advance(alg, &base).unwrap();
            assert!(!seen.contains(&n));
            seen.push(n);
        }
        assert_eq!(seq.counter, 300);
    }
}

#[test]
fn nonce_sequence_exhausted() {
    let mut seq = CounterNonceSequence { counter: u64::MAX };
    assert!(seq.advance(Algorithm::ChaCha20Poly1305, &[0u8; 24]).is_none());
    assert_eq!(seq.counter, u64::MAX);
}

#[test]
fn next_record_len_cases() {
    assert!(matches!(next_record_len(&[]), Ok(None)));
    assert!(matches!(next_record_len(&[1, 2]), Err(VaultError::IoError(_))));
    assert!(matches!(next_record_len(&[16, 0, 0, 0]), Ok(Some(16))));
    let too_long = ((CHUNK_SIZE + 17) as u32).to_le_bytes();
    assert!(matches!(next_record_len(&too_long), Err(VaultError::InvalidFormat(_))));
    let max = ((CHUNK_SIZE + 16) as u32).to_le_bytes();
    assert!(matches!(next_record_len(&max), Ok(Some(n)) if n == CHUNK_SIZE + 16));
}

#[test]
fn chunk_is_last_cases() {
    assert!(chunk_is_last(0, 0));
    assert!(chunk_is_last(10, 0));
    assert!(chunk_is_last(CHUNK_SIZE, 0));
    assert!(!chunk_is_last(CHUNK_SIZE, 5));
}
