use age::secrecy::ExposeSecret;
use pass_tomb::crypto::{
    decrypt_with_identity, decrypt_with_passphrase, encrypt_with_passphrase,
    encrypt_with_recipient, generate_keypair, identity_from_string, public_key_string,
    CryptoError,
};

#[test]
fn test_passphrase_roundtrip() {
    let data = b"Hello, pass-tomb!";
    let passphrase = "test-passphrase-123";

    let encrypted = encrypt_with_passphrase(passphrase, data).unwrap();
    assert_ne!(encrypted, data);

    let decrypted = decrypt_with_passphrase(passphrase, &encrypted).unwrap();
    assert_eq!(decrypted, data);
}

#[test]
fn test_wrong_passphrase_fails() {
    let data = b"secret data";
    let encrypted = encrypt_with_passphrase("correct-horse", data).unwrap();
    let result = decrypt_with_passphrase("wrong-horse", &encrypted);
    assert!(result.is_err());
}

#[test]
fn test_x25519_roundtrip() {
    let identity = generate_keypair();
    let pubkey = identity.to_public();
    let data = b"Hello with x25519!";

    let encrypted = encrypt_with_recipient(&pubkey, data).unwrap();
    let decrypted = decrypt_with_identity(&identity, &encrypted).unwrap();
    assert_eq!(decrypted, data);
}

#[test]
fn ciphertext_has_age_header() {
    let identity = generate_keypair();
    let c = encrypt_with_recipient(&identity.to_public(), b"x").unwrap();
    assert!(c.starts_with(b"age-encryption.org/v1"));
    assert!(c.len() > 1);
}

#[test]
fn identity_text_roundtrip() {
    let identity = generate_keypair();
    let text = public_key_string(&identity);
    assert!(text.starts_with("age1"));
    assert!(matches!(
        identity_from_string("not a key"),
        Err(CryptoError::InvalidIdentity)
    ));
    let other = generate_keypair();
    let c = encrypt_with_recipient(&identity.to_public(), b"m").unwrap();
    assert!(matches!(
        decrypt_with_identity(&other, &c),
        Err(CryptoError::DecryptionFailed)
    ));
}

#[test]
fn identity_from_age_key_text() {
    let key = age::x25519::Identity::generate();
    let secret = key.to_string();
    let parsed = identity_from_string(secret.expose_secret()).unwrap();
    assert_eq!(public_key_string(&parsed), key.to_public().to_string());
    let c = age::encrypt(&key.to_public(), b"from age").unwrap();
    assert_eq!(decrypt_with_identity(&parsed, &c).unwrap(), b"from age");
    let lower = secret.expose_secret().to_lowercase();
    let parsed_lower = identity_from_string(&lower).unwrap();
    assert_eq!(public_key_string(&parsed_lower), key.to_public().to_string());
}
