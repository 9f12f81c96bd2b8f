use std::collections::hash_map::DefaultHasher;
use std::hash::Hasher;
use vstd::prelude::*;
use vstd::bytes::{spec_u64_to_le_bytes, u64_to_le_bytes, lemma_auto_spec_u64_to_from_le_bytes};
use vstd::utf8::{encode_utf8, decode_utf8, valid_utf8};
use aes_gcm::aead::{Aead, KeyInit};
use aes_gcm::{Aes256Gcm, Nonce};
use crate::random::random_array;
use crate::error::{AppError, AppResult};
use vstd::std_specs::hash::DefaultHasherAdditionalSpecFns;
use vstd::slice::slice_to_vec;

verus! {

/// Length of an AES-256 key in bytes.
pub const KEY_LEN: usize = 32;
/// Length of an AES-GCM nonce in bytes.
pub const NONCE_LEN: usize = 12;

/// The hash of one stretching round: the `DefaultHasher` digest of the length
/// of the material so far, the material itself and the round index, the two
/// integers each fed as eight little-endian bytes.
pub open spec fn round_hash(material: Seq<u8>, round: int) -> u64 {
    DefaultHasher::spec_finish(
        seq![spec_u64_to_le_bytes(material.len() as u64), material, spec_u64_to_le_bytes(round as u64)],
    )
}

/// The stretched material after `n` rounds: each round appends the
/// little-endian bytes of its hash.
pub open spec fn stretched(password: Seq<u8>, n: nat) -> Seq<u8>
    decreases n,
{
    if n == 0 {
        password
    } else {
        let prev = stretched(password, (n - 1) as nat);
        prev + spec_u64_to_le_bytes(round_hash(prev, n - 1))
    }
}

/// Key byte `i` is byte `i % 8` of the hash of round `i`.
pub open spec fn derived_key(password: Seq<u8>) -> Seq<u8> {
    Seq::new(
        KEY_LEN as nat,
        |i: int| spec_u64_to_le_bytes(round_hash(stretched(password, i as nat), i))[i % 8],
    )
}

/// Derives a 256-bit key from a password by repeated hashing.
pub fn derive_key(password: &str) -> (key: [u8; KEY_LEN])
    ensures
        key@ == derived_key(encode_utf8(password@)),
{
    proof {
        lemma_auto_spec_u64_to_from_le_bytes();
    }
    let ghost pw = encode_utf8(password@);
    let mut key = [0u8; KEY_LEN];
    let mut current: Vec<u8> = slice_to_vec(password.as_bytes());
    let mut i: usize = 0;
    while i < KEY_LEN
        invariant
            i <= KEY_LEN,
            key@.len() == KEY_LEN,
            current@ == stretched(pw, i as nat),
            forall|j: int| 0 <= j < i ==> key@[j] == derived_key(pw)[j],
        decreases KEY_LEN - i,
    {
        let mut hasher = DefaultHasher::new();
        let len_bytes = u64_to_le_bytes(current.len() as u64);
        hasher.write(len_bytes.as_slice());
        hasher.write(current.as_slice());
        let round_bytes = u64_to_le_bytes(i as u64);
        hasher.write(round_bytes.as_slice());
        assert(hasher@ == seq![len_bytes@, current@, round_bytes@]);
        let h = hasher.finish();
        assert(h == round_hash(current@, i as int));
        let h_bytes = u64_to_le_bytes(h);
        key[i] = h_bytes[i % 8];
        let mut k: usize = 0;
        let ghost before = current@;
        while k < 8
            invariant
                k <= 8,
                h_bytes@.len() == 8,
                current@ == before + h_bytes@.subrange(0, k as int),
            decreases 8 - k,
        {
            current.push(h_bytes[k]);
            k += 1;
            assert(current@ == before + h_bytes@.subrange(0, k as int));
        }
        assert(h_bytes@.subrange(0, 8) == h_bytes@);
        i += 1;
    }
    assert(key@ == derived_key(pw));
    key
}


/// Largest plaintext, in bytes, that AES-256-GCM accepts.
pub const AES_GCM_MAX_PLAINTEXT: u64 = 68719476736;

/// The ciphertext (with its appended tag) that AES-256-GCM produces for
/// `plaintext` under `key` and `nonce`, with no associated data.
pub uninterp spec fn aes_gcm_seal(key: Seq<u8>, nonce: Seq<u8>, plaintext: Seq<u8>) -> Seq<u8>;

/// The plaintext that AES-256-GCM recovers from `ciphertext` under `key` and
/// `nonce`, or `None` when the ciphertext does not authenticate.
pub uninterp spec fn aes_gcm_open(key: Seq<u8>, nonce: Seq<u8>, ciphertext: Seq<u8>) -> Option<Seq<u8>>;

#[verifier::external_type_specification]
#[verifier::external_body]
pub struct ExAeadError(aes_gcm::aead::Error);

/// Calls `Aead::encrypt` of `aes_gcm::Aes256Gcm`. The crate refuses plaintexts
/// longer than 2^36 bytes and otherwise returns the sealed message (the
/// encrypted bytes followed by the 16-byte tag); by the definition of an
/// AEAD, opening it with the same key and nonce gives the plaintext back.
#[verifier::external_body]
fn aes_gcm_encrypt(key: &[u8; KEY_LEN], nonce: &[u8; NONCE_LEN], plaintext: &[u8]) -> (r: Result<Vec<u8>, aes_gcm::aead::Error>)
    ensures
        (r is Ok) <==> plaintext@.len() <= AES_GCM_MAX_PLAINTEXT,
        r matches Ok(c) ==> c@ == aes_gcm_seal(key@, nonce@, plaintext@),
        r matches Ok(c) ==> c@.len() == plaintext@.len() + 16,
        r matches Ok(c) ==> aes_gcm_open(key@, nonce@, c@) == Some(plaintext@),
{
    let cipher = Aes256Gcm::new(aes_gcm::aead::generic_array::GenericArray::from_slice(key));
    cipher.encrypt(Nonce::from_slice(nonce), plaintext)
}

/// Calls `Aead::decrypt` of `aes_gcm::Aes256Gcm`: it returns the plaintext
/// exactly when the ciphertext authenticates under the key and nonce.
/// The crate panics on a nonce that is not twelve bytes long.
#[verifier::external_body]
fn aes_gcm_decrypt(key: &[u8; KEY_LEN], nonce: &[u8], ciphertext: &[u8]) -> (r: Result<Vec<u8>, aes_gcm::aead::Error>)
    requires
        nonce@.len() == NONCE_LEN,
    ensures
        match r {
            Ok(p) => aes_gcm_open(key@, nonce@, ciphertext@) == Some(p@),
            Err(_) => aes_gcm_open(key@, nonce@, ciphertext@) is None,
        },
{
    let cipher = Aes256Gcm::new(aes_gcm::aead::generic_array::GenericArray::from_slice(key));
    cipher.decrypt(Nonce::from_slice(nonce), ciphertext)
}

/// The text of an `aes_gcm::aead::Error`: its `Display` writes
/// `aead::Error`.
#[verifier::external_body]
fn aead_error_text(e: &aes_gcm::aead::Error) -> (r: String)
    ensures
        r@ == "aead::Error"@,
{
    e.to_string()
}

/// The text `std::string::FromUtf8Error` displays for bytes that are not
/// valid UTF-8 (where the first invalid sequence starts, and how long it is).
pub uninterp spec fn utf8_error_of(bytes: Seq<u8>) -> Seq<char>;

/// Calls `String::from_utf8`: the bytes become a string exactly when they are
/// valid UTF-8, and the string holds the characters they encode; otherwise
/// the error's text (its `Display`), which depends on the bytes alone.
#[verifier::external_body]
fn string_from_utf8(bytes: Vec<u8>) -> (r: Result<String, String>)
    ensures
        match r {
            Ok(s) => valid_utf8(bytes@) && s@ == decode_utf8(bytes@),
            Err(t) => !valid_utf8(bytes@) && t@ == utf8_error_of(bytes@),
        },
{
    match String::from_utf8(bytes) {
        Ok(s) => Ok(s),
        Err(e) => Err(e.to_string()),
    }
}

/// Generates a random encryption key (for keyfile-based encryption).
pub fn generate_key() -> (key: [u8; KEY_LEN])
    ensures
        key@.len() == KEY_LEN,
{
    random_array()
}

/// Encrypts `plaintext` with AES-256-GCM under a fresh random nonce and
/// returns the ciphertext and the nonce.
pub fn encrypt(key: &[u8; KEY_LEN], plaintext: &[u8]) -> (r: AppResult<(Vec<u8>, Vec<u8>)>)
    ensures
        (r is Ok) <==> plaintext@.len() <= AES_GCM_MAX_PLAINTEXT,
        r matches Ok((c, n)) ==> {
            &&& n@.len() == NONCE_LEN
            &&& c@ == aes_gcm_seal(key@, n@, plaintext@)
            &&& c@.len() == plaintext@.len() + 16
            &&& aes_gcm_open(key@, n@, c@) == Some(plaintext@)
        },
        r matches Err(e) ==> (e matches AppError::Encryption(t) && t@ == "aead::Error"@),
{
    let nonce_bytes: [u8; NONCE_LEN] = random_array();
    match aes_gcm_encrypt(key, &nonce_bytes, plaintext) {
        Ok(ciphertext) => Ok((ciphertext, slice_to_vec(nonce_bytes.as_slice()))),
        Err(e) => Err(AppError::Encryption(aead_error_text(&e))),
    }
}

/// Decrypts `ciphertext` with AES-256-GCM under `key` and `nonce`.
pub fn decrypt(key: &[u8; KEY_LEN], ciphertext: &[u8], nonce: &[u8]) -> (r: AppResult<Vec<u8>>)
    requires
        nonce@.len() == NONCE_LEN,
    ensures
        match r {
            Ok(p) => aes_gcm_open(key@, nonce@, ciphertext@) == Some(p@),
            Err(e) => aes_gcm_open(key@, nonce@, ciphertext@) is None && (e matches AppError::Decryption(
                t,
            ) && t@ == "aead::Error"@),
        },
{
    match aes_gcm_decrypt(key, nonce, ciphertext) {
        Ok(p) => Ok(p),
        Err(e) => Err(AppError::Decryption(aead_error_text(&e))),
    }
}

/// What decrypting a stored cookie yields: the text encoded by the opened
/// bytes, when they open and are valid UTF-8.
pub open spec fn cookie_plaintext(key: Seq<u8>, encrypted: Seq<u8>, nonce: Seq<u8>) -> Option<Seq<char>> {
    match aes_gcm_open(key, nonce, encrypted) {
        Some(p) => if valid_utf8(p) { Some(decode_utf8(p)) } else { None },
        None => None,
    }
}

/// What encrypting `cookie` under `key` may give: the sealed UTF-8 bytes of
/// the cookie under a fresh twelve-byte nonce, sixteen bytes longer than
/// those bytes and decrypting back to the cookie; an encryption error
/// exactly when the cookie is too long.
pub open spec fn cookie_encrypted(key: Seq<u8>, cookie: Seq<char>, r: AppResult<(Seq<u8>, Seq<u8>)>) -> bool {
    &&& (r is Ok) <==> encode_utf8(cookie).len() <= AES_GCM_MAX_PLAINTEXT
    &&& match r {
        Ok((c, n)) => {
            &&& n.len() == NONCE_LEN
            &&& c == aes_gcm_seal(key, n, encode_utf8(cookie))
            &&& c.len() == encode_utf8(cookie).len() + 16
            &&& cookie_plaintext(key, c, n) == Some(cookie)
        },
        Err(e) => e is Encryption,
    }
}

/// The bytes of an encryption result.
pub open spec fn sealed_view(r: AppResult<(Vec<u8>, Vec<u8>)>) -> AppResult<(Seq<u8>, Seq<u8>)> {
    match r {
        Ok((c, n)) => Ok((c@, n@)),
        Err(e) => Err(e),
    }
}

/// What decrypting a stored cookie may give: the cookie the bytes decrypt
/// to, or a decryption error when they do not.
pub open spec fn cookie_decrypted(key: Seq<u8>, encrypted: Seq<u8>, nonce: Seq<u8>, r: AppResult<Seq<char>>) -> bool {
    match r {
        Ok(s) => cookie_plaintext(key, encrypted, nonce) == Some(s),
        Err(e) => cookie_plaintext(key, encrypted, nonce) is None && (e matches AppError::Decryption(t)
            && t@ == decryption_failure(key, encrypted, nonce)),
    }
}

/// Why a stored cookie does not decrypt: the ciphertext does not
/// authenticate (`aead::Error`), or the opened bytes are not UTF-8 (the
/// text of that error).
pub open spec fn decryption_failure(key: Seq<u8>, encrypted: Seq<u8>, nonce: Seq<u8>) -> Seq<char> {
    match aes_gcm_open(key, nonce, encrypted) {
        None => "aead::Error"@,
        Some(p) => utf8_error_of(p),
    }
}

/// The text of a decryption result.
pub open spec fn opened_view(r: AppResult<String>) -> AppResult<Seq<char>> {
    match r {
        Ok(s) => Ok(s@),
        Err(e) => Err(e),
    }
}

/// Encrypts a cookie string (its UTF-8 bytes). Whenever it succeeds, the
/// result decrypts back to the same cookie.
pub fn encrypt_cookie(key: &[u8; KEY_LEN], cookie: &str) -> (r: AppResult<(Vec<u8>, Vec<u8>)>)
    ensures
        cookie_encrypted(key@, cookie@, sealed_view(r)),
{
    let r = encrypt(key, cookie.as_bytes());
    proof {
        vstd::utf8::encode_utf8_valid_utf8(cookie@);
        vstd::utf8::encode_utf8_decode_utf8(cookie@);
    }
    r
}

/// Decrypts a cookie back to a string.
pub fn decrypt_cookie(key: &[u8; KEY_LEN], encrypted: &[u8], nonce: &[u8]) -> (r: AppResult<String>)
    requires
        nonce@.len() == NONCE_LEN,
    ensures
        cookie_decrypted(key@, encrypted@, nonce@, opened_view(r)),
{
    let bytes = match decrypt(key, encrypted, nonce) {
        Ok(b) => b,
        Err(e) => return Err(e),
    };
    match string_from_utf8(bytes) {
        Ok(s) => Ok(s),
        Err(t) => Err(AppError::Decryption(t)),
    }
}

} // verus!
