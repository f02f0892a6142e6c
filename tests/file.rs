use nosqlite_rust::error::{NosqliteError, NosqliteErrorHandler};
use nosqlite_rust::file::File;

fn handler() -> NosqliteErrorHandler {
    NosqliteErrorHandler::new("store.nosqlite".to_string())
}

fn key_of(byte: u8) -> [u8; 32] {
    [byte; 32]
}

#[test]
fn decrypt_gives_back_what_was_encrypted() {
    let mut h = handler();
    let text = "{\"collections\":[]} é ✓";
    let blob = File::encrypt(text, &key_of(7), &mut h).unwrap();
    assert_ne!(blob, text);
    let back = File::decrypt(&blob, &key_of(7), &mut h).unwrap();
    assert_eq!(back, text);
    assert!(h.all_errors().is_empty());
}

#[test]
fn fresh_nonce_each_time() {
    let mut h = handler();
    let a = File::encrypt("same", &key_of(1), &mut h).unwrap();
    let b = File::encrypt("same", &key_of(1), &mut h).unwrap();
    assert_ne!(a, b);
}

#[test]
fn fixed_nonce_is_deterministic_and_framed() {
    let mut h = handler();
    let nonce = [9u8; 12];
    let a = File::encrypt_with_nonce("abc", &key_of(3), &nonce, &mut h).unwrap();
    let b = File::encrypt_with_nonce("abc", &key_of(3), &nonce, &mut h).unwrap();
    assert_eq!(a, b);
    // 12 nonce bytes + 3 ciphertext bytes + 16 tag bytes = 31 bytes: 44 base64 characters.
    assert_eq!(a.len(), 44);
    assert!(a.starts_with("CQkJCQkJCQkJCQkJ"));
    assert_eq!(File::decrypt(&a, &key_of(3), &mut h).unwrap(), "abc");
}

#[test]
fn wrong_key_fails() {
    let mut h = handler();
    let blob = File::encrypt("secret", &key_of(1), &mut h).unwrap();
    let r = File::decrypt(&blob, &key_of(2), &mut h);
    assert!(matches!(r, Err(NosqliteError::EncryptionError(_))));
    assert_eq!(h.all_errors().len(), 1);
}

#[test]
fn tampered_text_fails() {
    let mut h = handler();
    let blob = File::encrypt("secret", &key_of(1), &mut h).unwrap();
    let mut chars: Vec<char> = blob.chars().collect();
    let i = 20;
    chars[i] = if chars[i] == 'A' { 'B' } else { 'A' };
    let tampered: String = chars.into_iter().collect();
    let r = File::decrypt(&tampered, &key_of(1), &mut h);
    assert!(r.is_err());
}

#[test]
fn not_base64_fails_with_base64_error() {
    let mut h = handler();
    let r = File::decrypt("invalid-encrypted-content", &key_of(1), &mut h);
    assert!(matches!(r, Err(NosqliteError::Base64DecodeError(_))));
}

#[test]
fn too_short_fails_with_encryption_error() {
    let mut h = handler();
    let r = File::decrypt("AAAA", &key_of(1), &mut h);
    assert!(matches!(r, Err(NosqliteError::EncryptionError(_))));
}

#[test]
fn key_hex_round_trip() {
    let mut h = handler();
    let mut key = [0u8; 32];
    for (i, b) in key.iter_mut().enumerate() {
        *b = (i as u8) * 8 + 1;
    }
    let hex = File::key_to_hex(&key);
    assert_eq!(hex.len(), 64);
    assert!(hex.starts_with("01091119"));
    assert_eq!(File::key_from_hex(&hex, &mut h).unwrap(), key);
    assert_eq!(File::key_from_hex(&hex.to_uppercase(), &mut h).unwrap(), key);
    let padded = format!("  {}\n", hex);
    assert_eq!(File::key_from_file_text(&padded, &mut h).unwrap(), key);
}

#[test]
fn bad_keys_fail_with_hex_error() {
    let mut h = handler();
    assert!(matches!(File::key_from_hex("abc", &mut h), Err(NosqliteError::HexDecodeError(_))));
    assert!(matches!(File::key_from_hex("zz", &mut h), Err(NosqliteError::HexDecodeError(_))));
    assert!(matches!(File::key_from_hex("0011", &mut h), Err(NosqliteError::HexDecodeError(_))));
    assert_eq!(h.all_errors().len(), 3);
}

#[test]
fn new_key_comes_with_its_hex_text() {
    let mut h = handler();
    let (key, hex) = File::new_key();
    assert_eq!(hex.len(), 64);
    assert_eq!(File::key_from_hex(&hex, &mut h).unwrap(), key);
    let (other, _) = File::new_key();
    assert_ne!(key, other);
}
