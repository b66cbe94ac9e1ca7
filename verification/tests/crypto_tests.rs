use stego::crypto::{decrypt_message, encrypt_message, hash_message};
use stego::errors::StegoError;

#[test]
fn hash_is_first_eight_sha256_bytes() {
    assert_eq!(
        hash_message(b"abc"),
        [0xba, 0x78, 0x16, 0xbf, 0x8f, 0x01, 0xcf, 0xea]
    );
    assert_eq!(
        hash_message(b""),
        [0xe3, 0xb0, 0xc4, 0x42, 0x98, 0xfc, 0x1c, 0x14]
    );
}

#[test]
fn encrypt_prepends_nonce_and_appends_tag() {
    let c = encrypt_message(b"HELLO", "secret").unwrap();
    assert_eq!(c.len(), 5 + 28);
    assert_ne!(&c[..], b"HELLO");
}

#[test]
fn decrypt_inverts_encrypt() {
    let c = encrypt_message(b"top secret message", "pass").unwrap();
    let p = decrypt_message(&c, "pass").unwrap();
    assert_eq!(p, b"top secret message");
}

#[test]
fn decrypt_with_wrong_passphrase_fails() {
    let c = encrypt_message(b"HELLO", "secret").unwrap();
    let e = decrypt_message(&c, "wrong").unwrap_err();
    assert_eq!(e, StegoError::CryptoError);
}

#[test]
fn decrypt_rejects_buffer_shorter_than_nonce() {
    let e = decrypt_message(&[1, 2, 3], "secret").unwrap_err();
    assert_eq!(e, StegoError::CryptoError);
}
