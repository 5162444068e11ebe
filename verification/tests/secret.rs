use bnu_core::secret::{SecretBox, SecretError};

fn key() -> Vec<u8> {
    (0u8..32).collect()
}

#[test]
fn roundtrip() {
    let sb = SecretBox::from_key(&key()).unwrap();
    let enc = sb.encrypt("sk-测试-key-123").unwrap();
    assert_ne!(enc, "sk-测试-key-123");
    assert_eq!(sb.decrypt(&enc).unwrap(), "sk-测试-key-123");
}

#[test]
fn persists_across_reload() {
    let enc = SecretBox::from_key(&key()).unwrap().encrypt("hello").unwrap();
    let sb2 = SecretBox::from_key(&key()).unwrap();
    assert_eq!(sb2.decrypt(&enc).unwrap(), "hello");
}

#[test]
fn tampered_ciphertext_fails() {
    let sb = SecretBox::from_key(&key()).unwrap();
    let enc = sb.encrypt("secret").unwrap();
    let mut bytes = base64::Engine::decode(&base64::engine::general_purpose::STANDARD, &enc).unwrap();
    let last = bytes.len() - 1;
    bytes[last] ^= 0xff;
    let bad = base64::Engine::encode(&base64::engine::general_purpose::STANDARD, bytes);
    assert_eq!(sb.decrypt(&bad).unwrap_err(), SecretError::Decrypt);
}

#[test]
fn secret_errors_by_input() {
    assert_eq!(SecretBox::from_key(&[1u8; 31]).err(), Some(SecretError::BadKeyFile));
    let sb = SecretBox::from_key(&key()).unwrap();
    assert_eq!(sb.decrypt("%%%").unwrap_err(), SecretError::NotBase64);
    assert_eq!(sb.decrypt("AAAA").unwrap_err(), SecretError::BadLength);
    let other = SecretBox::from_key(&[9u8; 32]).unwrap();
    let enc = sb.encrypt("x").unwrap();
    assert_eq!(other.decrypt(&enc).unwrap_err(), SecretError::Decrypt);
    assert_eq!(sb.decrypt(&format!("  {}\n", enc)).unwrap(), "x");
    assert_eq!(SecretError::BadLength.message(), "密文长度异常");
    let e1 = sb.encrypt("same").unwrap();
    let e2 = sb.encrypt("same").unwrap();
    assert_ne!(e1, e2);
}

#[test]
fn api_keys_are_stored_sealed_and_read_back() {
    let sb = SecretBox::from_key(&key()).unwrap();
    assert_eq!(sb.seal_key(None).unwrap(), None);
    assert_eq!(sb.seal_key(Some("")).unwrap(), None);
    let stored = sb.seal_key(Some("sk-abc")).unwrap().unwrap();
    assert!(!stored.contains("sk-abc"));
    assert_eq!(sb.open_key(Some(&stored)).unwrap(), Some("sk-abc".to_string()));
    assert_eq!(sb.open_key(Some("")).unwrap(), None);
    assert_eq!(sb.open_key(None).unwrap(), None);
    assert!(sb.open_key(Some("!!")).is_err());
}
