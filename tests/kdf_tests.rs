use secure_vault::kdf::derive_key;
use secure_vault::VaultError;

#[test]
fn test_derive_key() {
    let password = "test_password".to_string();
    let salt = b"test_salt_32_bytes_long_exactly!";

    let key = derive_key(password.as_bytes(), salt, 1).unwrap();

    assert_eq!(key.key.len(), 32);
}

#[test]
fn test_derive_key_deterministic() {
    let password = "test_password".to_string();
    let salt = b"test_salt_32_bytes_long_exactly!";

    let key1 = derive_key(password.as_bytes(), salt, 1).unwrap();
    let key2 = derive_key(password.as_bytes(), salt, 1).unwrap();

    assert_eq!(key1.key, key2.key);
}

#[test]
fn test_derive_key_different_passwords() {
    let password1 = "password1".to_string();
    let password2 = "password2".to_string();
    let salt = b"test_salt_32_bytes_long_exactly!";

    let key1 = derive_key(password1.as_bytes(), salt, 1).unwrap();
    let key2 = derive_key(password2.as_bytes(), salt, 1).unwrap();

    assert_ne!(key1.key, key2.key);
}

#[test]
fn derive_key_zero_work_factor_is_kdf_error() {
    let salt = b"test_salt_32_bytes_long_exactly!";
    let r = derive_key(b"pw", salt, 0);
    assert!(matches!(r, Err(VaultError::KdfError(_))));
}

#[test]
fn derive_key_depends_on_salt_and_work_factor() {
    let a = derive_key(b"pw", b"test_salt_32_bytes_long_exactly!", 1).unwrap();
    let b = derive_key(b"pw", b"another_salt_32_bytes_long_abcde", 1).unwrap();
    let c = derive_key(b"pw", b"test_salt_32_bytes_long_exactly!", 2).unwrap();
    assert_ne!(a.key, b.key);
    assert_ne!(a.key, c.key);
}

#[test]
fn wipe_clears_key() {
    let mut k = derive_key(b"pw", b"test_salt_32_bytes_long_exactly!", 1).unwrap();
    k.wipe();
    assert!(k.key.is_empty());
}
