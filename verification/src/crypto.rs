//! Encryption of the broker tokens the service stores: AES-256-GCM with a
//! fresh 12-byte nonce, stored as `base64(nonce || ciphertext)`.
use aes_gcm::aead::{Aead, KeyInit, OsRng};
use aes_gcm::{AeadCore, Aes256Gcm, Key, Nonce};
use base64::engine::general_purpose::STANDARD;
use base64::Engine;
use vstd::prelude::*;
use vstd::utf8::{decode_utf8, encode_utf8, valid_utf8};

verus! {

/// The length of an AES-GCM nonce in bytes.
pub const NONCE_LEN: usize = 12;

/// Why a token could not be encrypted or decrypted.
#[derive(Clone, Copy, Debug, PartialEq, Eq, Structural)]
pub enum CryptoError {
    EncryptionFailed,
    /// The stored text is not base64.
    Base64DecodeFailed,
    /// The stored data is shorter than a nonce.
    InvalidData,
    /// Authentication failed (wrong key or altered data).
    DecryptionFailed,
    /// The decrypted bytes are not UTF-8.
    InvalidUtf8,
}

/// What the standard base64 engine (with padding) writes for some bytes.
pub uninterp spec fn base64_encoding(bytes: Seq<u8>) -> Seq<char>;

/// What the standard base64 engine reads from a text (`None` when it is not
/// valid base64).
pub uninterp spec fn base64_decoding(text: Seq<char>) -> Option<Seq<u8>>;

/// What AES-256-GCM produces (ciphertext with its tag) for a key, a nonce and
/// a plaintext (`None` when the cipher refuses the input).
pub uninterp spec fn aes_gcm_seal(key: Seq<u8>, nonce: Seq<u8>, plaintext: Seq<u8>) -> Option<Seq<u8>>;

/// What AES-256-GCM decrypts from a key, a nonce and a ciphertext (`None`
/// when the tag does not authenticate it).
pub uninterp spec fn aes_gcm_open(key: Seq<u8>, nonce: Seq<u8>, ciphertext: Seq<u8>) -> Option<Seq<u8>>;

/// Optional bytes by their view.
pub open spec fn opt_bytes(o: Option<Vec<u8>>) -> Option<Seq<u8>> {
    match o {
        Some(v) => Some(v@),
        None => None,
    }
}

/// `STANDARD.encode`: the base64 text of some bytes, from which
/// `STANDARD.decode` reads the same bytes back.
#[verifier::external_body]
fn base64_encode(bytes: &Vec<u8>) -> (r: String)
    ensures
        r@ == base64_encoding(bytes@),
        base64_decoding(r@) == Some(bytes@),
{
    STANDARD.encode(bytes)
}

/// `STANDARD.decode`: the bytes of a base64 text, `None` when it is not valid.
#[verifier::external_body]
pub(crate) fn base64_decode(text: &str) -> (r: Option<Vec<u8>>)
    ensures
        opt_bytes(r) == base64_decoding(text@),
{
    STANDARD.decode(text).ok()
}

/// `Aes256Gcm::generate_nonce(&mut OsRng)`: a random nonce of 12 bytes.
#[verifier::external_body]
fn random_nonce() -> (r: Vec<u8>)
    ensures
        r@.len() == NONCE_LEN,
{
    Aes256Gcm::generate_nonce(&mut OsRng).to_vec()
}

/// The longest plaintext AES-GCM encrypts (`aes_gcm::P_MAX`, `2^36` bytes).
pub const PLAINTEXT_MAX: u64 = 0x10_0000_0000;

/// `Aes256Gcm::encrypt`: the ciphertext of a plaintext under a key and a
/// nonce, which `Aes256Gcm::decrypt` with the same key and nonce opens.  It
/// refuses only a plaintext longer than `PLAINTEXT_MAX` bytes.
#[verifier::external_body]
fn seal(key: &[u8; 32], nonce: &Vec<u8>, plaintext: &Vec<u8>) -> (r: Option<Vec<u8>>)
    requires
        nonce@.len() == NONCE_LEN,
    ensures
        opt_bytes(r) == aes_gcm_seal(key@, nonce@, plaintext@),
        r is Some <==> plaintext@.len() <= PLAINTEXT_MAX,
        r is Some ==> aes_gcm_open(key@, nonce@, r->0@) == Some(plaintext@),
{
    let cipher = Aes256Gcm::new(Key::<Aes256Gcm>::from_slice(key));
    cipher.encrypt(Nonce::from_slice(nonce), plaintext.as_slice()).ok()
}

/// `Aes256Gcm::decrypt`: the plaintext of a ciphertext, `None` when it does
/// not authenticate.
#[verifier::external_body]
fn open(key: &[u8; 32], nonce: &Vec<u8>, ciphertext: &Vec<u8>) -> (r: Option<Vec<u8>>)
    requires
        nonce@.len() == NONCE_LEN,
    ensures
        opt_bytes(r) == aes_gcm_open(key@, nonce@, ciphertext@),
{
    let cipher = Aes256Gcm::new(Key::<Aes256Gcm>::from_slice(key));
    cipher.decrypt(Nonce::from_slice(nonce), ciphertext.as_slice()).ok()
}

/// `String::from_utf8`: the text of valid UTF-8 bytes.
#[verifier::external_body]
fn from_utf8(bytes: Vec<u8>) -> (r: Option<String>)
    ensures
        r is Some <==> valid_utf8(bytes@),
        r is Some ==> r->0@ == decode_utf8(bytes@),
{
    String::from_utf8(bytes).ok()
}

/// What decrypting a stored token gives: base64-decode, split off the
/// nonce, open, and read the bytes as UTF-8.
pub open spec fn decrypt_spec(encoded: Seq<char>, key: Seq<u8>) -> Result<Seq<char>, CryptoError> {
    match base64_decoding(encoded) {
        None => Err(CryptoError::Base64DecodeFailed),
        Some(blob) => if blob.len() < NONCE_LEN {
            Err(CryptoError::InvalidData)
        } else {
            match aes_gcm_open(key, blob.take(NONCE_LEN as int), blob.skip(NONCE_LEN as int)) {
                None => Err(CryptoError::DecryptionFailed),
                Some(plain) => if valid_utf8(plain) {
                    Ok(decode_utf8(plain))
                } else {
                    Err(CryptoError::InvalidUtf8)
                },
            }
        },
    }
}

/// Bytes `from..to` of a vector.
fn byte_range(v: &Vec<u8>, from: usize, to: usize) -> (r: Vec<u8>)
    requires
        from <= to <= v@.len(),
    ensures
        r@ == v@.subrange(from as int, to as int),
{
    let mut out: Vec<u8> = Vec::new();
    let mut i = from;
    while i < to
        invariant
            from <= i <= to,
            to <= v@.len(),
            out@ == v@.subrange(from as int, i as int),
        decreases to - i,
    {
        out.push(v[i]);
        i = i + 1;
        assert(out@ =~= v@.subrange(from as int, i as int));
    }
    out
}

/// Encrypts a token with a fresh nonce; the result is
/// `base64(nonce || ciphertext)`, which `decrypt` turns back into the token.
/// Only a token longer than `PLAINTEXT_MAX` bytes is refused.
pub fn encrypt(plaintext: &str, key: &[u8; 32]) -> (r: Result<String, CryptoError>)
    ensures
        r is Ok <==> encode_utf8(plaintext@).len() <= PLAINTEXT_MAX,
        r is Ok ==> decrypt_spec(r->Ok_0@, key@) == Ok::<Seq<char>, CryptoError>(plaintext@),
        r is Ok ==> exists|n: Seq<u8>, c: Seq<u8>| #![trigger aes_gcm_seal(key@, n, encode_utf8(plaintext@)), base64_encoding(n + c)]
            n.len() == NONCE_LEN && aes_gcm_seal(key@, n, encode_utf8(plaintext@)) == Some(c) && r->Ok_0@
                == base64_encoding(n + c),
        r is Err ==> r->Err_0 == CryptoError::EncryptionFailed,
{
    let nonce = random_nonce();
    let bytes = plaintext.as_bytes_vec();
    let ciphertext = match seal(key, &nonce, &bytes) {
        None => return Err(CryptoError::EncryptionFailed),
        Some(c) => c,
    };
    let mut blob = byte_range(&nonce, 0, nonce.len());
    let n = ciphertext.len();
    let mut i: usize = 0;
    while i < n
        invariant
            n == ciphertext@.len(),
            i <= n,
            blob@ == nonce@ + ciphertext@.take(i as int),
        decreases n - i,
    {
        blob.push(ciphertext[i]);
        i = i + 1;
        assert(blob@ =~= nonce@ + ciphertext@.take(i as int));
    }
    assert(ciphertext@.take(n as int) =~= ciphertext@);
    let encoded = base64_encode(&blob);
    proof {
        vstd::utf8::encode_utf8_valid_utf8(plaintext@);
        vstd::utf8::encode_utf8_decode_utf8(plaintext@);
        assert(blob@.take(NONCE_LEN as int) =~= nonce@);
        assert(blob@.skip(NONCE_LEN as int) =~= ciphertext@);
    }
    Ok(encoded)
}

/// Decrypts a stored token.
pub fn decrypt(encoded: &str, key: &[u8; 32]) -> (r: Result<String, CryptoError>)
    ensures
        match r {
            Ok(s) => decrypt_spec(encoded@, key@) == Ok::<Seq<char>, CryptoError>(s@),
            Err(e) => decrypt_spec(encoded@, key@) == Err::<Seq<char>, CryptoError>(e),
        },
{
    let blob = match base64_decode(encoded) {
        None => return Err(CryptoError::Base64DecodeFailed),
        Some(b) => b,
    };
    if blob.len() < NONCE_LEN {
        return Err(CryptoError::InvalidData);
    }
    let nonce = byte_range(&blob, 0, NONCE_LEN);
    let ciphertext = byte_range(&blob, NONCE_LEN, blob.len());
    assert(nonce@ =~= blob@.take(NONCE_LEN as int));
    assert(ciphertext@ =~= blob@.skip(NONCE_LEN as int));
    let plain = match open(key, &nonce, &ciphertext) {
        None => return Err(CryptoError::DecryptionFailed),
        Some(p) => p,
    };
    match from_utf8(plain) {
        None => Err(CryptoError::InvalidUtf8),
        Some(s) => Ok(s),
    }
}

} // verus!
