use authenticator::decimal::parse_decimal;
use authenticator::hotp::{code_from_tag, counter_bytes, generate_hotp, hmac_sign, parse_algorithm, Algorithm};
use authenticator::secret::{decode_secret, pad_base32};
use authenticator::totp::totp_code_at;

const RFC_SECRET: &[u8] = b"12345678901234567890";

#[test]
fn hotp_matches_rfc4226_vectors() {
    let expected = [
        "755224", "287082", "359152", "969429", "338314", "254676", "287922", "162583", "399871",
        "520489",
    ];
    for (counter, code) in expected.iter().enumerate() {
        assert_eq!(generate_hotp(RFC_SECRET, counter as u64, 6, Algorithm::SHA1), *code);
    }
}

#[test]
fn code_from_tag_rfc4226_example() {
    let tag: Vec<u8> = vec![
        0x1f, 0x86, 0x98, 0x69, 0x0e, 0x02, 0xca, 0x16, 0x61, 0x85, 0x50, 0xef, 0x7f, 0x19, 0xda,
        0x8e, 0x94, 0x5b, 0x55, 0x5a,
    ];
    assert_eq!(code_from_tag(&tag, 6), "872921");
    assert_eq!(code_from_tag(&tag, 9), "357872921");
    assert_eq!(code_from_tag(&tag, 0), "0");
    assert_eq!(code_from_tag(&tag, 1), "1");
}

#[test]
fn code_from_tag_pads_with_zeros() {
    let mut tag = vec![0u8; 20];
    tag[19] = 0x00;
    tag[3] = 0x05;
    assert_eq!(code_from_tag(&tag, 6), "000005");
    assert_eq!(code_from_tag(&tag, 8), "00000005");
}

#[test]
fn hmac_sign_lengths_and_rfc2202_value() {
    assert_eq!(hmac_sign(Algorithm::SHA1, b"k", b"m").len(), 20);
    assert_eq!(hmac_sign(Algorithm::SHA256, b"k", b"m").len(), 32);
    assert_eq!(hmac_sign(Algorithm::SHA512, b"k", b"m").len(), 64);
    let tag = hmac_sign(Algorithm::SHA1, b"Jefe", b"what do ya want for nothing?");
    assert_eq!(
        tag,
        vec![
            0xef, 0xfc, 0xdf, 0x6a, 0xe5, 0xeb, 0x2f, 0xa2, 0xd2, 0x74, 0x16, 0xd5, 0xf1, 0x84,
            0xdf, 0x9c, 0x25, 0x9a, 0x7c, 0x79
        ]
    );
}

#[test]
fn counter_bytes_are_big_endian() {
    assert_eq!(counter_bytes(0x0102030405060708), vec![1, 2, 3, 4, 5, 6, 7, 8]);
    assert_eq!(counter_bytes(1), vec![0, 0, 0, 0, 0, 0, 0, 1]);
}

#[test]
fn totp_matches_rfc6238_vectors() {
    let sha1 = b"12345678901234567890".to_vec();
    let sha256 = b"12345678901234567890123456789012".to_vec();
    let sha512 = b"1234567890123456789012345678901234567890123456789012345678901234".to_vec();
    let none = String::new();
    assert_eq!(totp_code_at(Algorithm::SHA1, 8, 30, &sha1, &none, &none, 59), ("94287082".to_string(), 1));
    assert_eq!(totp_code_at(Algorithm::SHA256, 8, 30, &sha256, &none, &none, 59).0, "46119246");
    assert_eq!(totp_code_at(Algorithm::SHA512, 8, 30, &sha512, &none, &none, 59).0, "90693936");
    assert_eq!(
        totp_code_at(Algorithm::SHA1, 8, 30, &sha1, &none, &none, 1111111109),
        ("07081804".to_string(), 1)
    );
    assert_eq!(totp_code_at(Algorithm::SHA1, 8, 30, &sha1, &none, &none, 1111111110).1, 30);
}

#[test]
fn totp_is_hotp_of_time_step() {
    let secret = b"12345678901234567890".to_vec();
    let none = String::new();
    for time in [0u64, 29, 30, 59, 1_234_567_890] {
        let (code, remaining) = totp_code_at(Algorithm::SHA256, 7, 30, &secret, &none, &none, time);
        assert_eq!(code, generate_hotp(&secret, time / 30, 7, Algorithm::SHA256));
        assert!(1 <= remaining && remaining <= 30);
        assert_eq!((time + remaining) % 30, 0);
    }
}

#[test]
fn totp_code_constant_within_step() {
    let secret = b"12345678901234567890".to_vec();
    let none = String::new();
    let a = totp_code_at(Algorithm::SHA1, 6, 60, &secret, &none, &none, 120).0;
    let b = totp_code_at(Algorithm::SHA1, 6, 60, &secret, &none, &none, 179).0;
    assert_eq!(a, b);
}

#[test]
fn parse_algorithm_names() {
    assert_eq!(parse_algorithm("SHA256"), Algorithm::SHA256);
    assert_eq!(parse_algorithm("sha512"), Algorithm::SHA512);
    assert_eq!(parse_algorithm("Sha1"), Algorithm::SHA1);
    assert_eq!(parse_algorithm("md5"), Algorithm::SHA1);
    assert_eq!(parse_algorithm(""), Algorithm::SHA1);
    // U+017F (long s) uppercases to 'S'.
    assert_eq!(parse_algorithm("\u{17f}ha256"), Algorithm::SHA256);
}

#[test]
fn parse_decimal_follows_str_parse() {
    assert_eq!(parse_decimal("42", u64::MAX), Some(42));
    assert_eq!(parse_decimal("+42", u64::MAX), Some(42));
    assert_eq!(parse_decimal("007", u64::MAX), Some(7));
    assert_eq!(parse_decimal("", u64::MAX), None);
    assert_eq!(parse_decimal("+", u64::MAX), None);
    assert_eq!(parse_decimal("-1", u64::MAX), None);
    assert_eq!(parse_decimal("1a", u64::MAX), None);
    assert_eq!(parse_decimal(" 1", u64::MAX), None);
    assert_eq!(parse_decimal("18446744073709551615", u64::MAX), Some(u64::MAX));
    assert_eq!(parse_decimal("18446744073709551616", u64::MAX), None);
    assert_eq!(parse_decimal("256", 255), None);
    assert_eq!(parse_decimal("255", 255), Some(255));
    for s in ["0", "+0", "12", "-3", "", "99999999999999999999", "+1+"] {
        assert_eq!(parse_decimal(s, u64::MAX), s.parse::<u64>().ok());
    }
}

#[test]
fn pad_base32_counts_bytes() {
    assert_eq!(pad_base32(""), "");
    assert_eq!(pad_base32("A"), "A=======");
    // 'é' is two bytes long in UTF-8.
    assert_eq!(pad_base32("\u{e9}"), "\u{e9}======");
    assert_eq!(pad_base32("AAAAAAA"), "AAAAAAA=");
    let once = pad_base32("ABC");
    assert_eq!(pad_base32(&once), once);
}

#[test]
fn decode_secret_values_and_error() {
    assert_eq!(decode_secret("JBSWY3DPEHPK3PXP").unwrap(), b"Hello!\xde\xad\xbe\xef".to_vec());
    assert_eq!(
        decode_secret("!!!INVALID!!!").unwrap_err(),
        "Invalid secret: Could not decode base32 secret."
    );
    // Padding is added before decoding, and this Base32 reader refuses `=`.
    assert!(decode_secret("AAA").is_err());
}

#[test]
fn hotp_code_reads_back_as_its_value() {
    for counter in 0..20u64 {
        for digits in 1..=9usize {
            let code = generate_hotp(RFC_SECRET, counter, digits, Algorithm::SHA512);
            assert_eq!(code.len(), digits);
            let value = parse_decimal(&code, u32::MAX as u64).unwrap();
            assert!(value < 10u64.pow(digits as u32));
        }
    }
    assert_eq!(generate_hotp(RFC_SECRET, 0, 0, Algorithm::SHA1), "0");
}
