//! Key agreement and the encrypted payload format.
//!
//! A payload is the standard base64 text of a 24-byte nonce followed by the
//! XChaCha20-Poly1305 ciphertext. The key is the SHA-256 digest of the X25519
//! shared secret.

use crate::text;
use chacha20poly1305::aead::{Aead, KeyInit};
use vstd::prelude::*;
use vstd::slice::*;

verus! {

/// Bytes of a nonce.
pub const NONCE_LEN: usize = 24;

/// Bytes that the cipher adds to a message.
pub const TAG_LEN: usize = 16;

/// The longest message, in bytes, that one nonce's key stream covers.
pub const MESSAGE_LIMIT: u64 = 274_877_906_816;

/// Why a payload could not be sealed or opened.
#[derive(Clone, Copy, Debug, PartialEq, Eq, Structural)]
pub enum CryptoError {
    /// The message is too long to encrypt.
    Encryption,
    /// The payload is not base64.
    InvalidPayload,
    /// The payload is shorter than a nonce.
    TooShort,
    /// The payload was not sealed under this key, or was changed since.
    Authentication,
}

impl CryptoError {
    /// The text that `message` gives.
    pub open spec fn message_of(self) -> Seq<char> {
        match self {
            CryptoError::Encryption => "encryption failed"@,
            CryptoError::InvalidPayload => "invalid encrypted payload"@,
            CryptoError::TooShort => "encrypted payload is too short"@,
            CryptoError::Authentication => "authentication/decryption failed"@,
        }
    }

    /// The error in words.
    pub fn message(&self) -> (text: String)
        ensures
            text@ == self.message_of(),
    {
        match self {
            CryptoError::Encryption => "encryption failed".to_owned(),
            CryptoError::InvalidPayload => "invalid encrypted payload".to_owned(),
            CryptoError::TooShort => "encrypted payload is too short".to_owned(),
            CryptoError::Authentication => "authentication/decryption failed".to_owned(),
        }
    }
}

// ---------------------------------------------------------------------------
// The outside cryptography
// ---------------------------------------------------------------------------

/// What `x25519_dalek::x25519` returns for scalar `k` and point `u`.
pub uninterp spec fn x25519_of(k: Seq<u8>, u: Seq<u8>) -> Seq<u8>;

/// What `sha2::Sha256::digest` returns for `data`.
pub uninterp spec fn sha256_of(data: Seq<u8>) -> Seq<u8>;

/// What XChaCha20-Poly1305 makes of `message` under `key` and `nonce`: the
/// ciphertext with its tag behind it.
pub uninterp spec fn xchacha_sealed(key: Seq<u8>, nonce: Seq<u8>, message: Seq<u8>) -> Seq<u8>;

/// What XChaCha20-Poly1305 opens `ciphertext` to under `key` and `nonce`;
/// `None` where the tag does not match.
pub uninterp spec fn xchacha_opened(key: Seq<u8>, nonce: Seq<u8>, ciphertext: Seq<u8>) -> Option<
    Seq<u8>,
>;

/// The standard base64 text, with padding, of `data`.
pub uninterp spec fn base64_encoded(data: Seq<u8>) -> Seq<char>;

/// Whether `c` is of the standard base64 alphabet, or its padding.
pub open spec fn is_base64(c: char) -> bool {
    'A' <= c <= 'Z' || 'a' <= c <= 'z' || '0' <= c <= '9' || c == '+' || c == '/' || c == '='
}

/// How many characters the base64 text of `len` bytes has: four for every three
/// bytes that were begun.
pub open spec fn base64_len(len: nat) -> nat {
    (len + 2) / 3 * 4
}

/// The bytes that the standard base64 engine reads in `text`; `None` where it
/// refuses it.
pub uninterp spec fn base64_decoded(text: Seq<char>) -> Option<Seq<u8>>;

/// The X25519 base point: the number nine, in little-endian order.
pub open spec fn base_point() -> Seq<u8> {
    Seq::new(32, |i: int| if i == 0 { 9u8 } else { 0u8 })
}

/// `x25519_dalek::x25519`, the function of RFC 7748: a function of its two
/// arguments. Its documentation shows the key agreement: where `u` is the
/// public key of a secret `j`, the result is what `j` gives with the public key
/// of `k`.
#[verifier::external_body]
fn x25519(k: &[u8; 32], u: &[u8; 32]) -> (r: [u8; 32])
    ensures
        r@ == x25519_of(k@, u@),
        forall|j: Seq<u8>|
            #![trigger x25519_of(j, base_point())]
            j.len() == 32 && u@ == x25519_of(j, base_point()) ==> r@ == x25519_of(
                j,
                x25519_of(k@, base_point()),
            ),
{
    x25519_dalek::x25519(*k, *u)
}

/// The constant `x25519_dalek::X25519_BASEPOINT_BYTES` holds the base point.
#[verifier::external_body]
fn x25519_base_point() -> (u: [u8; 32])
    ensures
        u@ == base_point(),
{
    x25519_dalek::X25519_BASEPOINT_BYTES
}

/// `sha2::Sha256::digest`: a function of the data.
#[verifier::external_body]
fn sha256(data: &[u8]) -> (digest: [u8; 32])
    ensures
        digest@ == sha256_of(data@),
{
    <sha2::Sha256 as sha2::Digest>::digest(data).into()
}

/// `Aead::encrypt` of `chacha20poly1305::XChaCha20Poly1305`, without associated
/// data. It panics unless the key has 32 bytes and the nonce 24, and where the
/// message runs past the end of the key stream. On every other message it
/// succeeds, adds the 16 bytes of the tag, and `Aead::decrypt` gives the message
/// back.
#[verifier::external_body]
fn xchacha_seal(key: &[u8; 32], nonce: &[u8; 24], message: &[u8]) -> (sealed: Option<Vec<u8>>)
    requires
        message@.len() <= MESSAGE_LIMIT,
    ensures
        sealed is Some,
        sealed->0@ == xchacha_sealed(key@, nonce@, message@),
        sealed->0@.len() == message@.len() + TAG_LEN,
        xchacha_opened(key@, nonce@, sealed->0@) == Some(message@),
{
    chacha20poly1305::XChaCha20Poly1305::new(chacha20poly1305::Key::from_slice(key)).encrypt(
        chacha20poly1305::XNonce::from_slice(nonce),
        message,
    ).ok()
}

/// `Aead::decrypt` of `chacha20poly1305::XChaCha20Poly1305`, without associated
/// data: a function of its arguments, which fails on fewer than the 16 bytes of
/// a tag and gives a message shorter than the ciphertext by that tag. The tag is
/// checked: only what `Aead::encrypt` makes of the message under the same key and
/// nonce opens to it. It can panic on a message that runs past the end of the key
/// stream.
#[verifier::external_body]
fn xchacha_open(key: &[u8; 32], nonce: &[u8], ciphertext: &[u8]) -> (opened: Option<Vec<u8>>)
    requires
        nonce@.len() == NONCE_LEN,
        ciphertext@.len() <= MESSAGE_LIMIT + TAG_LEN,
    ensures
        opened matches Some(m) ==> xchacha_opened(key@, nonce@, ciphertext@) == Some(m@)
            && m@.len() + TAG_LEN == ciphertext@.len() && ciphertext@ == xchacha_sealed(
            key@,
            nonce@,
            m@,
        ),
        opened is None ==> xchacha_opened(key@, nonce@, ciphertext@) is None,
        ciphertext@.len() < TAG_LEN ==> opened is None,
{
    chacha20poly1305::XChaCha20Poly1305::new(chacha20poly1305::Key::from_slice(key)).decrypt(
        chacha20poly1305::XNonce::from_slice(nonce),
        ciphertext,
    ).ok()
}

/// `Engine::encode` of `base64::engine::general_purpose::STANDARD`: a function
/// of the data, from which `Engine::decode` reads the data back. The text is
/// padded, and holds nothing but the alphabet and the padding.
#[verifier::external_body]
fn base64_encode(data: &Vec<u8>) -> (text: String)
    ensures
        text@ == base64_encoded(data@),
        base64_decoded(text@) == Some(data@),
        text@.len() == base64_len(data@.len()),
        forall|i: int| 0 <= i < text@.len() ==> is_base64(#[trigger] text@[i]),
{
    base64::Engine::encode(&base64::engine::general_purpose::STANDARD, data)
}

/// `Engine::decode` of `base64::engine::general_purpose::STANDARD`: a function
/// of the text.
#[verifier::external_body]
fn base64_decode(text: &str) -> (data: Option<Vec<u8>>)
    ensures
        data matches Some(d) ==> base64_decoded(text@) == Some(d@),
        data is None ==> base64_decoded(text@) is None,
{
    base64::Engine::decode(&base64::engine::general_purpose::STANDARD, text).ok()
}

/// `RngCore::fill_bytes` of the generator that `rand::thread_rng` gives: bytes
/// that nothing is known of.
#[verifier::external_body]
fn random_bytes<const N: usize>() -> (bytes: [u8; N])
{
    let mut bytes = [0u8; N];
    rand::RngCore::fill_bytes(&mut rand::thread_rng(), &mut bytes);
    bytes
}

// ---------------------------------------------------------------------------
// Keys
// ---------------------------------------------------------------------------

/// The public key of `secret`.
pub open spec fn public_key_of(secret: Seq<u8>) -> Seq<u8> {
    x25519_of(secret, base_point())
}

/// The key that the holder of `secret` shares with the holder of the secret
/// behind `peer_public`.
pub open spec fn shared_key_of(secret: Seq<u8>, peer_public: Seq<u8>) -> Seq<u8> {
    sha256_of(x25519_of(secret, peer_public))
}

/// The public key of `secret`.
pub fn public_key(secret: &[u8; 32]) -> (key: [u8; 32])
    ensures
        key@ == public_key_of(secret@),
{
    x25519(secret, &x25519_base_point())
}

/// The key shared with a peer. Both sides agree on it: where `peer_public` is
/// the public key of some secret, that secret and the public key of `secret`
/// give the same key.
pub fn shared_key(secret: &[u8; 32], peer_public: &[u8; 32]) -> (key: [u8; 32])
    ensures
        key@ == shared_key_of(secret@, peer_public@),
        forall|other: Seq<u8>|
            #![trigger public_key_of(other)]
            other.len() == 32 && peer_public@ == public_key_of(other) ==> key@ == shared_key_of(
                other,
                public_key_of(secret@),
            ),
{
    let shared = x25519(secret, peer_public);
    proof {
        assert forall|other: Seq<u8>|
            #![trigger public_key_of(other)]
            other.len() == 32 && peer_public@ == public_key_of(other) implies shared@ == x25519_of(
            other,
            public_key_of(secret@),
        ) by {
            assert(x25519_of(other, base_point()) == public_key_of(other));
        }
    }
    sha256(shared.as_slice())
}

/// A fresh secret key.
pub fn random_secret() -> (secret: [u8; 32])
{
    random_bytes::<32>()
}

/// A fresh peer id: six random bytes in hexadecimal.
pub fn random_id() -> (id: String)
    ensures
        exists|bytes: Seq<u8>|
            bytes.len() == 6 && id@ == #[trigger] text::hex_of(bytes),
{
    let bytes = random_bytes::<6>();
    let id = text::to_hex(bytes.as_slice());
    assert(bytes@.len() == 6);
    id
}

// ---------------------------------------------------------------------------
// Payloads
// ---------------------------------------------------------------------------

/// The payload of `plaintext` sealed under `key` and `nonce`.
pub open spec fn payload_of(key: Seq<u8>, nonce: Seq<u8>, plaintext: Seq<u8>) -> Seq<char> {
    base64_encoded(nonce + xchacha_sealed(key, nonce, plaintext))
}

/// Whether `encoded` is the payload of `plaintext` under `key` and `nonce`: base64
/// text without anything else in it, that reads as the nonce and the sealed
/// plaintext, which is longer than the plaintext by the tag, and that opens to the
/// plaintext.
pub open spec fn is_payload(
    encoded: Seq<char>,
    key: Seq<u8>,
    nonce: Seq<u8>,
    plaintext: Seq<u8>,
) -> bool {
    let sealed = xchacha_sealed(key, nonce, plaintext);
    &&& encoded == payload_of(key, nonce, plaintext)
    &&& base64_decoded(encoded) == Some(nonce + sealed)
    &&& sealed.len() == plaintext.len() + TAG_LEN
    &&& encoded.len() == base64_len(NONCE_LEN as nat + plaintext.len() + TAG_LEN as nat)
    &&& forall|i: int| 0 <= i < encoded.len() ==> is_base64(#[trigger] encoded[i])
    &&& opened_payload(key, encoded) == Ok::<Seq<u8>, CryptoError>(plaintext)
}

/// Whether `raw` is a nonce and what `plaintext` is sealed to under `key` and that
/// nonce.
pub open spec fn is_sealed(key: Seq<u8>, raw: Seq<u8>, plaintext: Seq<u8>) -> bool {
    &&& raw.len() == NONCE_LEN + plaintext.len() + TAG_LEN
    &&& raw.skip(NONCE_LEN as int) == xchacha_sealed(key, raw.take(NONCE_LEN as int), plaintext)
}

/// Whether `encoded` reads as a nonce and what `plaintext` is sealed to under
/// `key` and that nonce.
pub open spec fn is_sealed_payload(key: Seq<u8>, encoded: Seq<char>, plaintext: Seq<u8>) -> bool {
    base64_decoded(encoded) matches Some(raw) && is_sealed(key, raw, plaintext)
}

/// What the bytes of a payload open to under `key`, or why they do not.
pub open spec fn opened_raw(key: Seq<u8>, raw: Seq<u8>) -> Result<Seq<u8>, CryptoError> {
    if raw.len() < NONCE_LEN {
        Err(CryptoError::TooShort)
    } else if raw.len() > NONCE_LEN + MESSAGE_LIMIT + TAG_LEN {
        Err(CryptoError::Authentication)
    } else {
        match xchacha_opened(key, raw.take(NONCE_LEN as int), raw.skip(NONCE_LEN as int)) {
            None => Err(CryptoError::Authentication),
            Some(plaintext) => Ok(plaintext),
        }
    }
}

/// What a payload opens to under `key`, or why it does not.
pub open spec fn opened_payload(key: Seq<u8>, encoded: Seq<char>) -> Result<Seq<u8>, CryptoError> {
    match base64_decoded(encoded) {
        None => Err(CryptoError::InvalidPayload),
        Some(raw) => opened_raw(key, raw),
    }
}

/// Seals `plaintext` under `key` and the given nonce. This succeeds unless the
/// message is longer than the key stream, and `decrypt_bytes` under the same
/// key gives the plaintext back.
pub fn encrypt_with_nonce(key_bytes: &[u8; 32], nonce: &[u8; 24], plaintext: &[u8]) -> (encoded:
    Result<String, CryptoError>)
    ensures
        encoded is Ok <==> plaintext@.len() <= MESSAGE_LIMIT,
        encoded matches Ok(text) ==> is_payload(text@, key_bytes@, nonce@, plaintext@),
        encoded matches Err(e) ==> e == CryptoError::Encryption,
{
    if plaintext.len() as u64 > MESSAGE_LIMIT {
        return Err(CryptoError::Encryption);
    }
    match xchacha_seal(key_bytes, nonce, plaintext) {
        None => Err(CryptoError::Encryption),
        Some(ciphertext) => {
            let mut packet = slice_to_vec(nonce.as_slice());
            let ghost sealed = ciphertext@;
            let mut ciphertext = ciphertext;
            packet.append(&mut ciphertext);
            assert(packet@ == nonce@ + sealed);
            assert(packet@.take(NONCE_LEN as int) == nonce@);
            assert(packet@.skip(NONCE_LEN as int) == sealed);
            Ok(base64_encode(&packet))
        },
    }
}

/// Seals `plaintext` under `key` and a fresh random nonce. Whatever the nonce,
/// `decrypt_bytes` under the same key gives the plaintext back.
pub fn encrypt_bytes(key_bytes: &[u8; 32], plaintext: &[u8]) -> (encoded: Result<
    String,
    CryptoError,
>)
    ensures
        encoded is Ok <==> plaintext@.len() <= MESSAGE_LIMIT,
        encoded matches Ok(text) ==> exists|nonce: Seq<u8>|
            nonce.len() == NONCE_LEN && #[trigger] is_payload(
                text@,
                key_bytes@,
                nonce,
                plaintext@,
            ),
        encoded matches Ok(text) ==> opened_payload(key_bytes@, text@) == Ok::<
            Seq<u8>,
            CryptoError,
        >(plaintext@),
        encoded matches Err(e) ==> e == CryptoError::Encryption,
{
    let nonce = random_bytes::<24>();
    let encoded = encrypt_with_nonce(key_bytes, &nonce, plaintext);
    assert(nonce@.len() == NONCE_LEN);
    encoded
}

/// Opens a payload: base64, nonce, then authenticated ciphertext. Only what was
/// sealed under the key opens, and nothing that has no room for a tag does.
pub fn decrypt_bytes(key_bytes: &[u8; 32], encoded: &str) -> (opened: Result<Vec<u8>, CryptoError>)
    ensures
        opened matches Ok(plaintext) ==> opened_payload(key_bytes@, encoded@) == Ok::<
            Seq<u8>,
            CryptoError,
        >(plaintext@),
        opened matches Err(e) ==> opened_payload(key_bytes@, encoded@) == Err::<
            Seq<u8>,
            CryptoError,
        >(e),
        opened matches Ok(plaintext) ==> is_sealed_payload(key_bytes@, encoded@, plaintext@),
        base64_decoded(encoded@) matches Some(raw) ==> NONCE_LEN <= raw.len() < NONCE_LEN + TAG_LEN
            ==> opened == Err::<Vec<u8>, CryptoError>(CryptoError::Authentication),
{
    match base64_decode(encoded) {
        None => Err(CryptoError::InvalidPayload),
        Some(raw) => open_raw(key_bytes, raw.as_slice()),
    }
}

/// Opens the bytes of a payload. Only what was sealed under the key opens, and
/// nothing that has no room for a tag does.
pub fn open_raw(key_bytes: &[u8; 32], raw: &[u8]) -> (opened: Result<Vec<u8>, CryptoError>)
    ensures
        opened matches Ok(plaintext) ==> opened_raw(key_bytes@, raw@) == Ok::<Seq<u8>, CryptoError>(
            plaintext@,
        ),
        opened matches Err(e) ==> opened_raw(key_bytes@, raw@) == Err::<Seq<u8>, CryptoError>(e),
        opened matches Ok(plaintext) ==> is_sealed(key_bytes@, raw@, plaintext@),
        NONCE_LEN <= raw@.len() < NONCE_LEN + TAG_LEN ==> opened == Err::<Vec<u8>, CryptoError>(
            CryptoError::Authentication,
        ),
{
    if raw.len() < NONCE_LEN {
        return Err(CryptoError::TooShort);
    }
    if (raw.len() - NONCE_LEN) as u64 > MESSAGE_LIMIT + TAG_LEN as u64 {
        return Err(CryptoError::Authentication);
    }
    let (nonce, ciphertext) = raw.split_at(NONCE_LEN);
    assert(nonce@ == raw@.take(NONCE_LEN as int));
    assert(ciphertext@ == raw@.skip(NONCE_LEN as int));
    match xchacha_open(key_bytes, nonce, ciphertext) {
        None => Err(CryptoError::Authentication),
        Some(plaintext) => Ok(plaintext),
    }
}

// ---------------------------------------------------------------------------
// Laws
// ---------------------------------------------------------------------------

/// Two nonces make two payloads, also of one plaintext under one key; and both
/// open to what was sealed in them.
pub proof fn law_nonces_make_payloads_differ(
    key: Seq<u8>,
    nonce: Seq<u8>,
    other_nonce: Seq<u8>,
    plaintext: Seq<u8>,
    encoded: Seq<char>,
    other_encoded: Seq<char>,
)
    requires
        nonce.len() == NONCE_LEN,
        other_nonce.len() == NONCE_LEN,
        nonce != other_nonce,
        is_payload(encoded, key, nonce, plaintext),
        is_payload(other_encoded, key, other_nonce, plaintext),
    ensures
        encoded != other_encoded,
        opened_payload(key, encoded) == Ok::<Seq<u8>, CryptoError>(plaintext),
        opened_payload(key, other_encoded) == Ok::<Seq<u8>, CryptoError>(plaintext),
{
    let raw = nonce + xchacha_sealed(key, nonce, plaintext);
    let other_raw = other_nonce + xchacha_sealed(key, other_nonce, plaintext);
    assert(raw.take(NONCE_LEN as int) =~= nonce);
    assert(other_raw.take(NONCE_LEN as int) =~= other_nonce);
}

/// The key shared with a peer is the SHA-256 digest of the X25519 secret, and a public
/// key is that of the base point.
pub proof fn law_keys_are_x25519(secret: Seq<u8>, peer_public: Seq<u8>)
    ensures
        public_key_of(secret) == x25519_of(
            secret,
            Seq::new(32, |i: int| if i == 0 { 9u8 } else { 0u8 }),
        ),
        shared_key_of(secret, peer_public) == sha256_of(x25519_of(secret, peer_public)),
{
}

/// A payload is the base64 text of the nonce and of what the plaintext is sealed to
/// under the key and that nonce; it reads back as these bytes and opens to the
/// plaintext.
pub proof fn law_payload_is_nonce_and_seal(
    encoded: Seq<char>,
    key: Seq<u8>,
    nonce: Seq<u8>,
    plaintext: Seq<u8>,
)
    requires
        is_payload(encoded, key, nonce, plaintext),
    ensures
        encoded == base64_encoded(nonce + xchacha_sealed(key, nonce, plaintext)),
        base64_decoded(encoded) == Some(nonce + xchacha_sealed(key, nonce, plaintext)),
        opened_payload(key, encoded) == Ok::<Seq<u8>, CryptoError>(plaintext),
{
}

/// What a payload opens to is what the cipher opens its bytes behind the nonce to,
/// under that nonce and the key; and each error has its cause.
pub proof fn law_payload_opens_as_cipher(
    key: Seq<u8>,
    encoded: Seq<char>,
    nonce: Seq<u8>,
    sealed: Seq<u8>,
    raw: Seq<u8>,
)
    requires
        nonce.len() == 24,
        sealed.len() <= 274_877_906_832,
    ensures
        base64_decoded(encoded) is None ==> opened_payload(key, encoded) == Err::<
            Seq<u8>,
            CryptoError,
        >(CryptoError::InvalidPayload),
        base64_decoded(encoded) == Some(raw) && raw.len() < 24 ==> opened_payload(key, encoded)
            == Err::<Seq<u8>, CryptoError>(CryptoError::TooShort),
        base64_decoded(encoded) == Some(nonce + sealed) ==> opened_payload(key, encoded) == (
        match xchacha_opened(key, nonce, sealed) {
            Some(plaintext) => Ok::<Seq<u8>, CryptoError>(plaintext),
            None => Err::<Seq<u8>, CryptoError>(CryptoError::Authentication),
        }),
{
    let whole = nonce + sealed;
    assert(whole.take(24) =~= nonce);
    assert(whole.skip(24) =~= sealed);
}

/// What opened was sealed: the payload reads as a nonce and what the plaintext is sealed
/// to under the key and that nonce.
pub proof fn law_only_seals_open(key: Seq<u8>, encoded: Seq<char>, plaintext: Seq<u8>) -> (nonce: Seq<u8>)
    requires
        is_sealed_payload(key, encoded, plaintext),
    ensures
        nonce.len() == 24,
        base64_decoded(encoded) == Some(nonce + xchacha_sealed(key, nonce, plaintext)),
{
    let raw = base64_decoded(encoded)->0;
    assert(raw =~= raw.take(24) + raw.skip(24));
    raw.take(24)
}

} // verus!
