use secure_vault::codec::{begin_decryption, begin_encryption, decrypt_bytes, encrypt_bytes};
use secure_vault::types::CHUNK_SIZE;
use secure_vault::{Algorithm, CryptoEngine, VaultError};

fn record_sizes(container: &[u8], header: usize) -> Vec<usize> {
    let mut sizes = Vec::new();
    let mut pos = header;
    while pos < container.len() {
        let n = u32::from_le_bytes(container[pos..pos + 4].try_into().unwrap()) as usize;
        sizes.push(n);
        pos += 4 + n;
    }
    assert_eq!(pos, container.len());
    sizes
}

#[test]
fn test_encrypt_decrypt_round_trip() {
    let password = "test_password".to_string();
    let test_data = b"Hello, World! This is a test with ChaCha20.";
    let engine = CryptoEngine::new(Algorithm::ChaCha20Poly1305, 1);

    let encrypted = engine.encrypt_bytes(test_data, password.as_bytes()).unwrap();
    let decrypted = CryptoEngine::decrypt_bytes(&encrypted, password.as_bytes()).unwrap();

    assert_eq!(test_data, &decrypted[..]);
}

#[test]
fn round_trip_aes_single_byte() {
    let engine = CryptoEngine::new(Algorithm::Aes256Gcm, 1);
    let c = engine.encrypt_bytes(&[42], b"pw").unwrap();
    assert_eq!(record_sizes(&c, 50), vec![17]);
    assert_eq!(CryptoEngine::decrypt_bytes(&c, b"pw").unwrap(), vec![42]);
}

#[test]
fn two_and_a_half_mib_gives_three_records() {
    let data: Vec<u8> = (0..(CHUNK_SIZE * 5 / 2)).map(|i| (i % 251) as u8).collect();
    let c = encrypt_bytes(&data, b"pw", Algorithm::ChaCha20Poly1305, 1, vec![1; 32], vec![2; 24])
        .unwrap();
    assert_eq!(
        record_sizes(&c, 62),
        vec![CHUNK_SIZE + 16, CHUNK_SIZE + 16, CHUNK_SIZE / 2 + 16]
    );
    assert_eq!(decrypt_bytes(&c, b"pw").unwrap(), data);
}

#[test]
fn exactly_one_chunk_gives_one_record() {
    let data = vec![3u8; CHUNK_SIZE];
    let c = encrypt_bytes(&data, b"pw", Algorithm::Aes256Gcm, 1, vec![1; 32], vec![2; 12]).unwrap();
    assert_eq!(record_sizes(&c, 50), vec![CHUNK_SIZE + 16]);
    assert_eq!(decrypt_bytes(&c, b"pw").unwrap(), data);
}

#[test]
fn empty_file_gives_one_tag_only_record() {
    let c = encrypt_bytes(&[], b"pw", Algorithm::ChaCha20Poly1305, 1, vec![1; 32], vec![2; 24])
        .unwrap();
    assert_eq!(c.len(), 62 + 4 + 16);
    assert_eq!(record_sizes(&c, 62), vec![16]);
    assert_eq!(decrypt_bytes(&c, b"pw").unwrap(), Vec::<u8>::new());
}

#[test]
fn encryption_is_fixed_by_salt_and_seed() {
    let a = encrypt_bytes(b"abc", b"pw", Algorithm::Aes256Gcm, 1, vec![1; 32], vec![2; 12]).unwrap();
    let b = encrypt_bytes(b"abc", b"pw", Algorithm::Aes256Gcm, 1, vec![1; 32], vec![2; 12]).unwrap();
    assert_eq!(a, b);
    assert_ne!(&a[54..57], b"abc");
}

#[test]
fn tampering_fails_authentication() {
    let data: Vec<u8> = (0..5000u32).map(|i| i as u8).collect();
    let c = encrypt_bytes(&data, b"pw", Algorithm::Aes256Gcm, 1, vec![5; 32], vec![6; 12]).unwrap();
    let first = 50 + 4;
    let last = c.len() - 1;
    for (pos, bit) in [(first, 0u8), (first + 2000, 7), (last, 3)] {
        let mut t = c.clone();
        t[pos] ^= 1 << bit;
        assert!(matches!(decrypt_bytes(&t, b"pw"), Err(VaultError::AuthenticationFailed)));
    }
}

#[test]
fn wrong_password_fails_authentication() {
    let engine = CryptoEngine::new(Algorithm::ChaCha20Poly1305, 1);
    let c = engine.encrypt_bytes(b"secret data", b"right").unwrap();
    assert!(matches!(
        CryptoEngine::decrypt_bytes(&c, b"wrong"),
        Err(VaultError::AuthenticationFailed)
    ));
}

#[test]
fn unknown_version_or_algorithm_rejected() {
    let c = encrypt_bytes(b"x", b"pw", Algorithm::Aes256Gcm, 1, vec![1; 32], vec![2; 12]).unwrap();
    let mut v = c.clone();
    v[0] = 9;
    assert!(matches!(decrypt_bytes(&v, b"pw"), Err(VaultError::UnsupportedVersion(9))));
    let mut a = c.clone();
    a[1] = 7;
    assert!(matches!(decrypt_bytes(&a, b"pw"), Err(VaultError::UnsupportedAlgorithm(7))));
}

#[test]
fn truncated_records_are_io_errors() {
    let c = encrypt_bytes(b"hello", b"pw", Algorithm::Aes256Gcm, 1, vec![1; 32], vec![2; 12]).unwrap();
    assert!(matches!(decrypt_bytes(&c[..52], b"pw"), Err(VaultError::IoError(_))));
    assert!(matches!(decrypt_bytes(&c[..c.len() - 1], b"pw"), Err(VaultError::IoError(_))));
    let mut extra = c.clone();
    extra.extend([0u8, 0]);
    assert!(matches!(decrypt_bytes(&extra, b"pw"), Err(VaultError::IoError(_))));
    assert!(matches!(decrypt_bytes(&c[..40], b"pw"), Err(VaultError::InvalidFormat(_))));
    assert_eq!(decrypt_bytes(&c[..50], b"pw").unwrap(), Vec::<u8>::new());
}

#[test]
fn overlong_record_is_invalid_format() {
    let mut c =
        encrypt_bytes(b"hello", b"pw", Algorithm::Aes256Gcm, 1, vec![1; 32], vec![2; 12]).unwrap();
    c[50..54].copy_from_slice(&((CHUNK_SIZE + 17) as u32).to_le_bytes());
    assert!(matches!(decrypt_bytes(&c, b"pw"), Err(VaultError::InvalidFormat(_))));
}

#[test]
fn swapped_records_fail_authentication() {
    let mut data = vec![1u8; CHUNK_SIZE];
    data.extend(vec![2u8; 10]);
    let c = encrypt_bytes(&data, b"pw", Algorithm::ChaCha20Poly1305, 1, vec![1; 32], vec![2; 24])
        .unwrap();
    let first = &c[62..62 + 4 + CHUNK_SIZE + 16];
    let second = &c[62 + 4 + CHUNK_SIZE + 16..];
    let mut swapped = c[..62].to_vec();
    swapped.extend_from_slice(second);
    swapped.extend_from_slice(first);
    assert!(matches!(decrypt_bytes(&swapped, b"pw"), Err(VaultError::AuthenticationFailed)));
}

#[test]
fn one_byte_container_with_unknown_version() {
    assert!(matches!(decrypt_bytes(&[9], b"pw"), Err(VaultError::UnsupportedVersion(9))));
    assert!(matches!(decrypt_bytes(&[1], b"pw"), Err(VaultError::InvalidFormat(_))));
    assert!(matches!(decrypt_bytes(&[], b"pw"), Err(VaultError::InvalidFormat(_))));
}

#[test]
fn zero_work_factor_is_kdf_error() {
    let r = encrypt_bytes(b"x", b"pw", Algorithm::Aes256Gcm, 0, vec![1; 32], vec![2; 12]);
    assert!(matches!(r, Err(VaultError::KdfError(_))));
}

#[test]
fn streaming_matches_whole_buffer() {
    let (header, mut sealer) =
        begin_encryption(b"pw", Algorithm::ChaCha20Poly1305, 1, vec![1; 32], vec![2; 24]).unwrap();
    let mut out = header.clone();
    out.extend(sealer.seal_chunk(b"chunk one").unwrap());
    out.extend(sealer.seal_chunk(b"two").unwrap());
    sealer.finish();
    assert!(sealer.key.key.is_empty());
    assert_eq!(decrypt_bytes(&out, b"pw").unwrap(), b"chunk onetwo".to_vec());

    let mut opener = begin_decryption(&header, b"pw").unwrap();
    let first_len = u32::from_le_bytes(out[62..66].try_into().unwrap()) as usize;
    assert_eq!(first_len, 9 + 16);
    let p = opener.open_chunk(&out[66..66 + first_len]).unwrap();
    assert_eq!(p, b"chunk one".to_vec());
    // chunks out of order fail
    let mut reordered = begin_decryption(&header, b"pw").unwrap();
    let second = &out[66 + first_len + 4..];
    assert!(matches!(reordered.open_chunk(second), Err(VaultError::AuthenticationFailed)));
}

#[test]
fn engine_streaming_header_records_work_factor() {
    let engine = CryptoEngine::new(Algorithm::Aes256Gcm, 2);
    let (header, sealer) = engine.begin_encryption(b"pw").unwrap();
    assert_eq!(header.len(), 50);
    assert_eq!(&header[46..50], &[2, 0, 0, 0][..]);
    assert_eq!(sealer.nonces.counter, 0);
}

#[test]
fn error_messages() {
    assert_eq!(VaultError::AuthenticationFailed.message(), "invalid password or corrupted file");
    assert_eq!(VaultError::KdfError("bad".to_string()).message(), "bad");
}

#[test]
fn fresh_salt_and_seed_per_encryption() {
    let engine = CryptoEngine::new(Algorithm::Aes256Gcm, 1);
    let a = engine.encrypt_bytes(b"same", b"pw").unwrap();
    let b = engine.encrypt_bytes(b"same", b"pw").unwrap();
    assert_ne!(&a[2..34], &b[2..34]);
    assert_ne!(&a[34..46], &b[34..46]);
    assert_ne!(&a[2..34], &[0u8; 32][..]);
}
