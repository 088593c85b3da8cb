use ccem_core::crypto::{decrypt, encrypt, encrypt_with_iv};

#[test]
fn test_encrypt_decrypt_roundtrip() {
    let plaintext = "sk-ant-api03-test-key";
    let encrypted = encrypt(plaintext);
    assert!(encrypted.starts_with("enc:"));

    let decrypted = decrypt(&encrypted).unwrap();
    assert_eq!(decrypted, plaintext);
}

#[test]
fn test_decrypt_unencrypted() {
    let plaintext = "plain-text";
    let result = decrypt(plaintext).unwrap();
    assert_eq!(result, plaintext);
}

#[test]
fn test_encrypt_empty() {
    let result = encrypt("");
    assert_eq!(result, "");
}

#[test]
fn test_encrypted_form_shape() {
    let iv: Vec<u8> = (0u8..16u8).collect();
    let out = encrypt_with_iv("secret", &iv);
    assert!(out.starts_with("enc:000102030405060708090a0b0c0d0e0f:"));
    // whole blocks, two hex digits per byte
    let ct_hex = out.split(':').nth(2).unwrap();
    assert_eq!(ct_hex.len() % 32, 0);
    assert_eq!(decrypt(&out).unwrap(), "secret");
}

#[test]
fn test_decrypt_roundtrip_unicode() {
    let plaintext = "clé d'accès — テスト";
    let encrypted = encrypt(plaintext);
    assert_eq!(decrypt(&encrypted).unwrap(), plaintext);
}

#[test]
fn test_decrypt_two_fields_passes_through() {
    // an `enc:` prefix with no second colon is not the encrypted form
    let s = "enc:abcdef";
    assert_eq!(decrypt(s).unwrap(), s);
}

#[test]
fn test_decrypt_four_fields_passes_through() {
    let s = "enc:ab:cd:ef";
    assert_eq!(decrypt(s).unwrap(), s);
}

#[test]
fn test_decrypt_bad_iv_hex() {
    let err = decrypt("enc:zz:00112233445566778899aabbccddeeff").unwrap_err();
    assert!(err.starts_with("Invalid IV: "));
}

#[test]
fn test_decrypt_bad_ciphertext_hex() {
    let err = decrypt("enc:000102030405060708090a0b0c0d0e0f:nothex!").unwrap_err();
    assert!(err.starts_with("Invalid ciphertext: "));
}

#[test]
fn test_decrypt_wrong_iv_length() {
    let err = decrypt("enc:0011:00112233445566778899aabbccddeeff").unwrap_err();
    assert_eq!(err, "Invalid IV length");
}

#[test]
fn test_decrypt_partial_block() {
    let err = decrypt("enc:000102030405060708090a0b0c0d0e0f:0011").unwrap_err();
    assert!(err.starts_with("Decryption failed"));
}
