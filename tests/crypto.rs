use vault::crypto::{AesGcmCrypto, CryptoPort};
use vault::errors::CryptoError;

#[test]
fn decrypt_of_encrypt_gives_the_plaintext() {
    let salt = [11u8; 16];
    let mut sealer = AesGcmCrypto::new();
    sealer.init("correct horse", &salt).unwrap();
    let plain = b"some secret bytes".to_vec();
    let (cipher, nonce) = sealer.encrypt(&plain).unwrap();
    assert_eq!(cipher.len(), plain.len() + 16);
    assert_ne!(&cipher[..plain.len()], &plain[..]);
    let mut opener = AesGcmCrypto::new();
    opener.init("correct horse", &salt).unwrap();
    assert_eq!(opener.decrypt(&cipher, &nonce), Ok(plain));
}

#[test]
fn other_password_does_not_decrypt() {
    let salt = [11u8; 16];
    let mut sealer = AesGcmCrypto::new();
    sealer.init("pw1", &salt).unwrap();
    let (cipher, nonce) = sealer.encrypt(b"data").unwrap();
    let mut opener = AesGcmCrypto::new();
    opener.init("pw2", &salt).unwrap();
    assert!(matches!(opener.decrypt(&cipher, &nonce), Err(CryptoError::Aead(_))));
}

#[test]
fn other_salt_does_not_decrypt() {
    let mut sealer = AesGcmCrypto::new();
    sealer.init("pw", &[1u8; 16]).unwrap();
    let (cipher, nonce) = sealer.encrypt(b"data").unwrap();
    let mut opener = AesGcmCrypto::new();
    opener.init("pw", &[2u8; 16]).unwrap();
    assert!(matches!(opener.decrypt(&cipher, &nonce), Err(CryptoError::Aead(_))));
}

#[test]
fn no_key_means_not_initialized() {
    let c = AesGcmCrypto::new();
    assert_eq!(c.encrypt(b"x"), Err(CryptoError::NotInitialized));
    assert_eq!(c.decrypt(b"x", &[0u8; 12]), Err(CryptoError::NotInitialized));
}

#[test]
fn forgotten_key_means_not_initialized() {
    let mut c = AesGcmCrypto::new();
    c.init("pw", &[4u8; 16]).unwrap();
    c.forget_key();
    assert_eq!(c.encrypt(b"x"), Err(CryptoError::NotInitialized));
}

#[test]
fn sealing_with_a_given_nonce_is_deterministic() {
    let mut c = AesGcmCrypto::new();
    assert_eq!(c.seal_with_nonce(b"abc", &[1u8; 12]), Err(CryptoError::NotInitialized));
    c.init("pw", &[4u8; 16]).unwrap();
    let a = c.seal_with_nonce(b"abc", &[1u8; 12]).unwrap();
    let b = c.seal_with_nonce(b"abc", &[1u8; 12]).unwrap();
    assert_eq!(a, b);
    assert_eq!(a.len(), 3 + 16);
    assert_eq!(c.decrypt(&a, &[1u8; 12]), Ok(b"abc".to_vec()));
    assert_ne!(c.seal_with_nonce(b"abc", &[2u8; 12]).unwrap(), a);
}

#[test]
fn nonce_of_wrong_length_is_refused() {
    let mut c = AesGcmCrypto::new();
    c.init("pw", &[4u8; 16]).unwrap();
    assert_eq!(c.decrypt(b"0123456789abcdef", &[0u8; 11]), Err(CryptoError::InvalidNonce));
}

#[test]
fn fresh_nonce_and_salt_each_time() {
    let mut c = AesGcmCrypto::new();
    c.init("pw", &[4u8; 16]).unwrap();
    let (c1, n1) = c.encrypt(b"same").unwrap();
    let (c2, n2) = c.encrypt(b"same").unwrap();
    assert_ne!(n1, n2);
    assert_ne!(c1, c2);
    assert_ne!(c.salt_gen(), c.salt_gen());
}
