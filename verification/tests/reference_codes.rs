use authenticator::hotp::{generate_hotp, Algorithm};
use authenticator::secret::{decode_secret, pad_base32};
use authenticator::totp::totp_code_at;
use sha2::{Digest, Sha256};

fn test_secret() -> Vec<u8> {
    Sha256::digest(b"test-only-seed").to_vec()
}

fn test_secret_base32() -> String {
    data_encoding::BASE32_NOPAD
        .encode(&test_secret()[..10])
        .to_uppercase()
}

fn totp_at(secret: &Vec<u8>, time: u64) -> String {
    totp_code_at(Algorithm::SHA1, 6, 30, secret, &String::new(), &String::new(), time).0
}

#[test]
fn test_totp_generates_correct_length() {
    let secret = test_secret();
    let code = totp_at(&secret, 1_700_000_000);
    assert_eq!(code.len(), 6);
    assert!(code.chars().all(|c| c.is_ascii_digit()));
}

#[test]
fn test_totp_deterministic() {
    let secret = test_secret();
    let code_a = totp_at(&secret, 1_700_000_000);
    let code_b = totp_at(&secret, 1_700_000_000);
    assert_eq!(code_a, code_b);
}

#[test]
fn test_totp_and_hotp_agree() {
    let secret = test_secret();
    let time: u64 = 1_700_000_000;
    let counter = time / 30;
    let code_hotp = generate_hotp(&secret, counter, 6, Algorithm::SHA1);
    assert_eq!(totp_at(&secret, time), code_hotp);
}

#[test]
fn test_hotp_8_digits() {
    let secret = test_secret();
    let code = generate_hotp(&secret, 0, 8, Algorithm::SHA1);
    assert_eq!(code.len(), 8);
    assert!(code.chars().all(|c| c.is_ascii_digit()));
}

#[test]
fn test_hotp_different_algorithms() {
    let secret = test_secret();
    let sha1 = generate_hotp(&secret, 1, 6, Algorithm::SHA1);
    let sha256 = generate_hotp(&secret, 1, 6, Algorithm::SHA256);
    let sha512 = generate_hotp(&secret, 1, 6, Algorithm::SHA512);
    assert_ne!(sha1, sha256);
    assert_ne!(sha256, sha512);
}

#[test]
fn test_pad_base32() {
    assert_eq!(pad_base32("AAAAAAAA"), "AAAAAAAA");
    assert_eq!(pad_base32("AAAAAAAAAAAAAAAA"), "AAAAAAAAAAAAAAAA");
    assert_eq!(pad_base32("AAA"), "AAA=====");
    assert_eq!(pad_base32("AAAAA"), "AAAAA===");
}

#[test]
fn test_decode_secret_roundtrip() {
    let b32 = test_secret_base32();
    let decoded = decode_secret(&b32);
    assert!(decoded.is_ok());
    assert!(!decoded.unwrap().is_empty());
}

#[test]
fn test_decode_secret_invalid() {
    let result = decode_secret("!!!INVALID!!!");
    assert!(result.is_err());
}
