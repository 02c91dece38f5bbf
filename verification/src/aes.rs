//! Section encryption: AES-256-GCM under a password-derived key, with
//! base64 transport encoding.
//!
//! The key derivation is deliberately simple — the password's raw UTF-8
//! bytes, truncated or zero-padded to 32 bytes — and is preserved as such.

use aes_gcm::aead::{Aead, OsRng};
use aes_gcm::{AeadCore, Aes256Gcm, KeyInit};
use base64::Engine;
use vstd::prelude::*;

verus! {

/// What base64 decoding (standard alphabet, padded) makes of a string:
/// the decoded bytes, or nothing for text that is not canonical base64.
pub uninterp spec fn b64_back(s: Seq<char>) -> Option<Seq<u8>>;

/// What AES-256-GCM decryption makes of a ciphertext under a key and
/// nonce: the plaintext, or nothing when the authentication tag fails.
pub uninterp spec fn aes_open(key: Seq<u8>, nonce: Seq<u8>, ct: Seq<u8>) -> Option<Seq<u8>>;

/// The cipher key a password derives: its UTF-8 bytes, left-aligned in 32
/// zero bytes, truncated when longer.
pub open spec fn spec_derive_key(password: Seq<char>) -> Seq<u8> {
    let bytes = vstd::utf8::encode_utf8(password);
    Seq::new(
        32,
        |i: int|
            if i < bytes.len() {
                bytes[i]
            } else {
                0u8
            },
    )
}

/// Builds the raw AES key for a password.
pub fn derive_key(password: &str) -> (r: Vec<u8>)
    ensures
        r@ == spec_derive_key(password@),
{
    let bytes = password.as_bytes_vec();
    let mut key: Vec<u8> = Vec::new();
    let mut i: usize = 0;
    while i < 32
        invariant
            i <= 32,
            bytes@ == vstd::utf8::encode_utf8(password@),
            key@.len() == i,
            forall|j: int| 0 <= j < i ==> key@[j] == spec_derive_key(password@)[j],
        decreases 32 - i,
    {
        if i < bytes.len() {
            key.push(bytes[i]);
        } else {
            key.push(0u8);
        }
        i = i + 1;
    }
    proof {
        assert(key@ =~= spec_derive_key(password@));
    }
    key
}

/// Relies on `Aes256Gcm::encrypt` of the aes-gcm crate: its own decryption
/// inverts it under the same key and nonce, and it refuses only plaintexts
/// over its 2^36-byte limit.
#[verifier::external_body]
fn aes_encrypt_raw(key: &Vec<u8>, nonce: &Vec<u8>, plain: &Vec<u8>) -> (r: Result<Vec<u8>, ()>)
    requires
        key@.len() == 32,
        nonce@.len() == 12,
    ensures
        r matches Ok(c) ==> aes_open(key@, nonce@, c@) == Some(plain@),
        plain@.len() <= 0x1000000000 ==> r is Ok,
{
    let ka: [u8; 32] = match key.as_slice().try_into() {
        Ok(a) => a,
        Err(_) => return Err(()),
    };
    let na: [u8; 12] = match nonce.as_slice().try_into() {
        Ok(a) => a,
        Err(_) => return Err(()),
    };
    let cipher = Aes256Gcm::new(&ka.into());
    match cipher.encrypt((&na).into(), plain.as_slice()) {
        Ok(c) => Ok(c),
        Err(_) => Err(()),
    }
}

/// Relies on `Aes256Gcm::decrypt` of the aes-gcm crate: the result depends
/// on key, nonce and ciphertext alone, and a ciphertext with a valid tag
/// yields its plaintext.
#[verifier::external_body]
fn aes_decrypt_raw(key: &Vec<u8>, nonce: &Vec<u8>, ct: &Vec<u8>) -> (r: Result<Vec<u8>, ()>)
    requires
        key@.len() == 32,
        nonce@.len() == 12,
    ensures
        r matches Ok(v) ==> aes_open(key@, nonce@, ct@) == Some(v@),
        r is Err ==> aes_open(key@, nonce@, ct@) is None,
{
    let ka: [u8; 32] = match key.as_slice().try_into() {
        Ok(a) => a,
        Err(_) => return Err(()),
    };
    let na: [u8; 12] = match nonce.as_slice().try_into() {
        Ok(a) => a,
        Err(_) => return Err(()),
    };
    let cipher = Aes256Gcm::new(&ka.into());
    match cipher.decrypt((&na).into(), ct.as_slice()) {
        Ok(p) => Ok(p),
        Err(_) => Err(()),
    }
}

/// Relies on `Aes256Gcm::generate_nonce` with the operating system's RNG:
/// 12 bytes, random, nothing more is assumed of them.
#[verifier::external_body]
fn random_nonce() -> (r: Vec<u8>)
    ensures
        r@.len() == 12,
{
    Aes256Gcm::generate_nonce(&mut OsRng).to_vec()
}

/// Relies on `base64::engine::general_purpose::STANDARD.encode`: its own
/// decoding inverts it.
#[verifier::external_body]
fn b64_encode(data: &Vec<u8>) -> (r: String)
    ensures
        b64_back(r@) == Some(data@),
{
    base64::engine::general_purpose::STANDARD.encode(data.as_slice())
}

/// Relies on `base64::engine::general_purpose::STANDARD.decode`: the
/// result depends on the input text alone; canonical base64 decodes to its
/// bytes and anything else is refused.
#[verifier::external_body]
fn b64_decode(data: &str) -> (r: Result<Vec<u8>, ()>)
    ensures
        r matches Ok(v) ==> b64_back(data@) == Some(v@),
        r is Err ==> b64_back(data@) is None,
{
    match base64::engine::general_purpose::STANDARD.decode(data) {
        Ok(v) => Ok(v),
        Err(_) => Err(()),
    }
}

/// Relies on `String::from_utf8_lossy`: valid UTF-8 bytes decode to
/// exactly their character sequence.
#[verifier::external_body]
fn utf8_to_string(bytes: &Vec<u8>) -> (r: String)
    ensures
        vstd::utf8::valid_utf8(bytes@) ==> r@ == vstd::utf8::decode_utf8(bytes@),
{
    String::from_utf8_lossy(bytes.as_slice()).to_string()
}

/// What a successful encryption hands back: the base64 of a 12-byte nonce,
/// and the base64 of a ciphertext that opens, under the password's derived
/// key and that nonce, to the plaintext's UTF-8 bytes.
pub open spec fn encryption_ok(
    plaintext: Seq<char>,
    password: Seq<char>,
    nonce_s: Seq<char>,
    ct_s: Seq<char>,
) -> bool {
    &&& b64_back(nonce_s) matches Some(n) && n.len() == 12 && (b64_back(ct_s) matches Some(c)
        && aes_open(spec_derive_key(password), n, c) == Some(vstd::utf8::encode_utf8(plaintext)))
}

/// Encrypts a plaintext under a password of any length, returning the
/// base64 nonce and ciphertext. Fails only when the cipher refuses, which
/// it does not for plaintexts within its size limit.
pub fn encrypt(plaintext: &str, key: &str) -> (r: Result<(String, String), ()>)
    ensures
        r matches Ok(p) ==> encryption_ok(plaintext@, key@, p.0@, p.1@),
        vstd::utf8::encode_utf8(plaintext@).len() <= 0x1000000000 ==> r is Ok,
{
    let k = derive_key(key);
    let nonce = random_nonce();
    let pbytes = plaintext.as_bytes_vec();
    match aes_encrypt_raw(&k, &nonce, &pbytes) {
        Ok(ct) => Ok((b64_encode(&nonce), b64_encode(&ct))),
        Err(e) => Err(e),
    }
}

/// Decrypts what `encrypt` produced: on the nonce and ciphertext of any
/// plaintext sealed under the same password, it returns that plaintext.
pub fn decrypt(nonce: &str, ciphertext: &str, key: &str) -> (r: Result<String, ()>)
    ensures
        forall|p: Seq<char>|
            #[trigger] encryption_ok(p, key@, nonce@, ciphertext@) ==> (r matches Ok(s) && s@
                == p),
        b64_back(nonce@) is None ==> r is Err,
        (b64_back(nonce@) matches Some(n) && n.len() != 12) ==> r is Err,
        b64_back(ciphertext@) is None ==> r is Err,
        r is Ok ==> (b64_back(nonce@) matches Some(nb) && nb.len() == 12 && (b64_back(
            ciphertext@,
        ) matches Some(cb) && aes_open(spec_derive_key(key@), nb, cb) is Some)),
{
    let k = derive_key(key);
    let nb = match b64_decode(nonce) {
        Ok(v) => v,
        Err(e) => {
            return Err(e);
        },
    };
    if nb.len() != 12 {
        return Err(());
    }
    let cb = match b64_decode(ciphertext) {
        Ok(v) => v,
        Err(e) => {
            return Err(e);
        },
    };
    match aes_decrypt_raw(&k, &nb, &cb) {
        Ok(pb) => {
            let s = utf8_to_string(&pb);
            proof {
                assert forall|p: Seq<char>|
                    #[trigger] encryption_ok(p, key@, nonce@, ciphertext@) implies (s@ == p) by {
                    assert(pb@ == vstd::utf8::encode_utf8(p));
                    vstd::utf8::encode_utf8_valid_utf8(p);
                    vstd::utf8::encode_utf8_decode_utf8(p);
                }
            }
            Ok(s)
        },
        Err(e) => {
            proof {
                assert forall|p: Seq<char>|
                    #[trigger] encryption_ok(p, key@, nonce@, ciphertext@) implies false by {}
            }
            Err(e)
        },
    }
}

/// Law: the cipher round trip is the identity. For every plaintext and
/// every password, short or long, decrypting what `encrypt` produced under
/// the same password yields the plaintext again; the round trip declines
/// only when the cipher itself refused to encrypt.
pub fn encrypt_decrypt_round_trip(plaintext: &str, key: &str) -> (r: Option<String>)
    ensures
        r matches Some(s) ==> s@ == plaintext@,
        vstd::utf8::encode_utf8(plaintext@).len() <= 0x1000000000 ==> r is Some,
{
    match encrypt(plaintext, key) {
        Ok((n, c)) => match decrypt(n.as_str(), c.as_str(), key) {
            Ok(s) => Some(s),
            Err(_) => None,
        },
        Err(_) => None,
    }
}

} // verus!
