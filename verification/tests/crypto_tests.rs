use ram_manager::crypto::{decrypt, decrypt_cookie, derive_key, encrypt, encrypt_cookie, generate_key};
use ram_manager::error::AppError;
use ram_manager::settings::key_from_bytes;

#[test]
fn test_encrypt_decrypt_roundtrip() {
    let key = generate_key();
    let plaintext = b"_|WARNING:-DO-NOT-SHARE-THIS.--Sharing-this-will-allow-someone-to-log-in-as-you";
    let (ciphertext, nonce) = encrypt(&key, plaintext).unwrap();
    let decrypted = decrypt(&key, &ciphertext, &nonce).unwrap();
    assert_eq!(decrypted, plaintext);
}

#[test]
fn test_cookie_encrypt_decrypt() {
    let key = generate_key();
    let cookie = "_|WARNING:-DO-NOT-SHARE-THIS.--test-cookie-value";
    let (encrypted, nonce) = encrypt_cookie(&key, cookie).unwrap();
    let decrypted = decrypt_cookie(&key, &encrypted, &nonce).unwrap();
    assert_eq!(decrypted, cookie);
}

#[test]
fn test_derive_key_deterministic() {
    let k1 = derive_key("my-password");
    let k2 = derive_key("my-password");
    assert_eq!(k1, k2);
}

#[test]
fn test_derive_key_different_passwords() {
    let k1 = derive_key("password1");
    let k2 = derive_key("password2");
    assert_ne!(k1, k2);
}

#[test]
fn nonce_is_twelve_bytes_and_ciphertext_carries_tag() {
    let key = generate_key();
    let (ciphertext, nonce) = encrypt(&key, b"abc").unwrap();
    assert_eq!(nonce.len(), 12);
    assert_eq!(ciphertext.len(), 3 + 16);
}

#[test]
fn decrypt_with_wrong_key_is_a_decryption_error() {
    let key = generate_key();
    let mut other = key;
    other[0] ^= 1;
    let (ciphertext, nonce) = encrypt(&key, b"secret").unwrap();
    match decrypt(&other, &ciphertext, &nonce) {
        Err(AppError::Decryption(m)) => assert_eq!(m, "aead::Error"),
        other => panic!("unexpected {:?}", other),
    }
}

#[test]
fn tampered_cookie_does_not_decrypt() {
    let key = generate_key();
    let (mut encrypted, nonce) = encrypt_cookie(&key, "cookie").unwrap();
    encrypted[0] ^= 0x80;
    assert!(matches!(decrypt_cookie(&key, &encrypted, &nonce), Err(AppError::Decryption(_))));
}

#[test]
fn derived_key_depends_on_every_password_byte() {
    assert_ne!(derive_key(""), derive_key("a"));
    assert_eq!(derive_key("").len(), 32);
}

#[test]
fn key_file_uses_first_32_bytes() {
    let bytes: Vec<u8> = (0u8..40).collect();
    let key = key_from_bytes(&bytes);
    assert_eq!(key.to_vec(), (0u8..32).collect::<Vec<u8>>());
}

#[test]
fn non_text_plaintext_is_not_a_cookie() {
    let key = generate_key();
    let (encrypted, nonce) = encrypt(&key, &[0xff, 0xfe, 0x41]).unwrap();
    match decrypt_cookie(&key, &encrypted, &nonce) {
        Err(AppError::Decryption(m)) => assert!(m.contains("utf-8")),
        other => panic!("unexpected {:?}", other),
    }
}

#[test]
fn sealed_cookie_is_sixteen_bytes_longer() {
    let key = generate_key();
    let cookie = "_|WARNING:-é-cookie";
    let (encrypted, nonce) = encrypt_cookie(&key, cookie).unwrap();
    assert_eq!(encrypted.len(), cookie.len() + 16);
    assert_eq!(nonce.len(), 12);
    assert_eq!(decrypt_cookie(&key, &encrypted, &nonce).unwrap(), cookie);
}
