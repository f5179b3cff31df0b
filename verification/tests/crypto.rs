use lan_terminal_chat::crypto::{
    decrypt_bytes, encrypt_bytes, encrypt_with_nonce, open_raw, public_key, random_id,
    random_secret, shared_key, CryptoError,
};

fn key(hex: &str) -> [u8; 32] {
    let mut out = [0u8; 32];
    for i in 0..32 {
        out[i] = u8::from_str_radix(&hex[2 * i..2 * i + 2], 16).unwrap();
    }
    out
}

fn counting_key() -> [u8; 32] {
    let mut out = [0u8; 32];
    for i in 0..32 {
        out[i] = i as u8;
    }
    out
}

fn counting_nonce() -> [u8; 24] {
    let mut out = [0u8; 24];
    for i in 0..24 {
        out[i] = i as u8;
    }
    out
}

const SECRET_A: &str = "77076d0a7318a57d3c16c17251b26645df4c2f92ebc0992ac177fba51db92c2a";
const SECRET_B: &str = "5dab087e624a8a4b79e17f8b83800ee66f3bb1292618b6fd1c2f8b27ff88e0eb";

#[test]
fn public_keys_have_known_values() {
    assert_eq!(
        public_key(&key(SECRET_B)),
        key("de9edb7d7b7dc1b4d35b61c2ece435373f8343c85b78674dadfc7e146f882b4f")
    );
    assert_eq!(
        public_key(&key(SECRET_A)),
        key("f8a9535a2d2ff605e8e144d54f4ef5c62313a2055dbb21fddd3fd9c299eb015d")
    );
    assert_eq!(
        public_key(&[1u8; 32]),
        key("a4e09292b651c278b9772c569f5fa9bb13d906b46ab68c9df9dc2b4409f8a209")
    );
}

#[test]
fn both_sides_share_the_key() {
    let a = key(SECRET_A);
    let b = key(SECRET_B);
    let expected = key("9220ac8cac1798e2be02f7a9ef16729ff41ba283503e74bf5890527f87eff93a");
    assert_eq!(shared_key(&a, &public_key(&b)), expected);
    assert_eq!(shared_key(&b, &public_key(&a)), expected);
    assert_ne!(shared_key(&a, &public_key(&[1u8; 32])), expected);
}

#[test]
fn fresh_secrets_agree_too() {
    for _ in 0..8 {
        let a = random_secret();
        let b = random_secret();
        assert_ne!(a, b);
        assert_eq!(shared_key(&a, &public_key(&b)), shared_key(&b, &public_key(&a)));
    }
}

#[test]
fn payload_has_known_text() {
    assert_eq!(
        encrypt_with_nonce(&counting_key(), &counting_nonce(), b"hello peer"),
        Ok("AAECAwQFBgcICQoLDA0ODxAREhMUFRYX9qdjE//y/ctWNqxs0HvLFk0X98eXDdRI2lQ=".to_string())
    );
    assert_eq!(
        encrypt_with_nonce(&counting_key(), &counting_nonce(), b""),
        Ok("AAECAwQFBgcICQoLDA0ODxAREhMUFRYXLTUaZc0avlkfItwSacgtkA==".to_string())
    );
}

#[test]
fn payload_opens_to_what_was_sealed() {
    let k = counting_key();
    for len in [0usize, 1, 63, 64, 65, 49_152] {
        let message: Vec<u8> = (0..len).map(|i| (i * 7) as u8).collect();
        let sealed = encrypt_bytes(&k, &message).unwrap();
        assert_eq!(decrypt_bytes(&k, &sealed), Ok(message));
    }
    assert_eq!(
        decrypt_bytes(&k, "AAECAwQFBgcICQoLDA0ODxAREhMUFRYX9qdjE//y/ctWNqxs0HvLFk0X98eXDdRI2lQ="),
        Ok(b"hello peer".to_vec())
    );
}

#[test]
fn payload_is_nonce_and_seal_in_base64() {
    let k = counting_key();
    for len in 0..70usize {
        let message = vec![b'm'; len];
        let text = encrypt_with_nonce(&k, &counting_nonce(), &message).unwrap();
        assert_eq!(text.len(), (len + 40 + 2) / 3 * 4);
        assert!(text.bytes().all(|b| b.is_ascii_alphanumeric() || b"+/=".contains(&b)));
        assert!(text.starts_with("AAECAwQFBgcICQoLDA0ODxAREhMUFRYX"));
    }
}

#[test]
fn two_nonces_make_two_payloads() {
    let k = counting_key();
    let one = encrypt_with_nonce(&k, &[1u8; 24], b"same").unwrap();
    let two = encrypt_with_nonce(&k, &[2u8; 24], b"same").unwrap();
    assert_ne!(one, two);
    assert_eq!(decrypt_bytes(&k, &one), Ok(b"same".to_vec()));
    assert_eq!(decrypt_bytes(&k, &two), Ok(b"same".to_vec()));
}

#[test]
fn payload_without_a_tag_is_refused() {
    assert_eq!(decrypt_bytes(&[0u8; 32], &"A".repeat(32)), Err(CryptoError::Authentication));
    for len in 24..40usize {
        assert_eq!(open_raw(&counting_key(), &vec![0u8; len]), Err(CryptoError::Authentication));
    }
}

#[test]
fn nonces_are_fresh() {
    let k = counting_key();
    assert_ne!(encrypt_bytes(&k, b"same"), encrypt_bytes(&k, b"same"));
}

#[test]
fn refused_payloads_say_why() {
    let k = counting_key();
    assert_eq!(decrypt_bytes(&k, "not base64!"), Err(CryptoError::InvalidPayload));
    assert_eq!(decrypt_bytes(&k, ""), Err(CryptoError::TooShort));
    assert_eq!(decrypt_bytes(&k, "AAECAwQFBgcICQoLDA0ODxAREhMUFRY="), Err(CryptoError::TooShort));
    assert_eq!(
        decrypt_bytes(&k, "AAECAwQFBgcICQoLDA0ODxAREhMUFRYX"),
        Err(CryptoError::Authentication)
    );
    let sealed = encrypt_bytes(&k, b"secret").unwrap();
    assert_eq!(decrypt_bytes(&[9u8; 32], &sealed), Err(CryptoError::Authentication));
    assert_eq!(open_raw(&k, &[0u8; 23]), Err(CryptoError::TooShort));
    assert_eq!(open_raw(&k, &[0u8; 64]), Err(CryptoError::Authentication));
}

#[test]
fn changed_payloads_are_refused() {
    let k = counting_key();
    let sealed = encrypt_with_nonce(&k, &counting_nonce(), b"hello peer").unwrap();
    let mut changed = sealed.clone().into_bytes();
    changed[40] = if changed[40] == b'A' { b'B' } else { b'A' };
    let changed = String::from_utf8(changed).unwrap();
    assert_eq!(decrypt_bytes(&k, &changed), Err(CryptoError::Authentication));
}

#[test]
fn crypto_errors_in_words() {
    assert_eq!(CryptoError::Encryption.message(), "encryption failed");
    assert_eq!(CryptoError::InvalidPayload.message(), "invalid encrypted payload");
    assert_eq!(CryptoError::TooShort.message(), "encrypted payload is too short");
    assert_eq!(CryptoError::Authentication.message(), "authentication/decryption failed");
}

#[test]
fn ids_are_six_bytes_in_hexadecimal() {
    let id = random_id();
    assert_eq!(id.len(), 12);
    assert!(id.chars().all(|c| c.is_ascii_digit() || ('a'..='f').contains(&c)));
    assert_ne!(id, random_id());
}
