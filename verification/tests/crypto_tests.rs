use mdwiki::aes::{decrypt, derive_key, encrypt, encrypt_decrypt_round_trip};

#[test]
fn test_aes_encode_decode() {
    let plaintext = "plaintext";
    let key = "mysupersafepassword";
    let (nonce, ciphertext) = encrypt(plaintext, key).unwrap();
    assert_ne!(ciphertext, plaintext);
    assert_eq!(decrypt(&nonce, &ciphertext, key).unwrap(), plaintext);
}

#[test]
fn test_multiple_encode() {
    let plaintext = "<h1>Super secret section!</h1>";
    let key1 = "key1";
    let key2 = "key2";
    let key3 = "key3";

    let (nonce1, ciphertext) = encrypt(plaintext, key1).unwrap();
    let (nonce2, ciphertext) = encrypt(&ciphertext, key2).unwrap();
    let (nonce3, ciphertext) = encrypt(&ciphertext, key3).unwrap();

    let decoded = decrypt(&nonce3, &ciphertext, key3).unwrap();
    let decoded = decrypt(&nonce2, &decoded, key2).unwrap();
    let decoded = decrypt(&nonce1, &decoded, key1).unwrap();

    assert_eq!(decoded, plaintext);
}

// The round trip is the identity for passwords shorter than, equal to, and
// longer than the 32-byte key size, and for non-ASCII plaintext.
#[test]
fn test_round_trip_password_lengths() {
    let plaintext = "some secret prose — naïve and ünïcode";
    let short = "pw";
    let exact = "0123456789abcdef0123456789abcdef";
    let long = "0123456789abcdef0123456789abcdef-and-then-some-more";
    assert_eq!(
        encrypt_decrypt_round_trip(plaintext, short).unwrap(),
        plaintext
    );
    assert_eq!(
        encrypt_decrypt_round_trip(plaintext, exact).unwrap(),
        plaintext
    );
    assert_eq!(
        encrypt_decrypt_round_trip(plaintext, long).unwrap(),
        plaintext
    );
    assert_eq!(encrypt_decrypt_round_trip("", "k").unwrap(), "");
}

// The key derivation zero-pads short passwords and truncates long ones.
#[test]
fn test_derive_key() {
    let k = derive_key("ab");
    assert_eq!(k.len(), 32);
    assert_eq!(k[0], b'a');
    assert_eq!(k[1], b'b');
    assert!(k[2..].iter().all(|b| *b == 0));

    let long = "0123456789abcdef0123456789abcdefEXTRA";
    let k2 = derive_key(long);
    assert_eq!(k2.len(), 32);
    assert_eq!(&k2[..], &long.as_bytes()[..32]);

    // Truncation means two passwords sharing 32 leading bytes derive the
    // same key, and their ciphertexts are mutually decryptable.
    let other = "0123456789abcdef0123456789abcdefOTHER";
    let (nonce, ct) = encrypt("payload", long).unwrap();
    assert_eq!(decrypt(&nonce, &ct, other).unwrap(), "payload");
}

// Decryption rejects text that is not base64, a wrong-sized nonce, and a
// ciphertext under the wrong key.
#[test]
fn test_decrypt_errors() {
    assert!(decrypt("!!not base64!!", "also not", "key").is_err());
    let (nonce, ct) = encrypt("hello", "right").unwrap();
    assert!(decrypt(&nonce, &ct, "wrong").is_err());
    // A valid base64 string of the wrong length is not a nonce.
    assert!(decrypt("AAAA", &ct, "right").is_err());
    // The ciphertext differs from the plaintext it hides, and the nonce
    // is 12 random bytes in base64: sixteen characters.
    assert_ne!(ct, "hello");
    assert_eq!(nonce.len(), 16);
}
