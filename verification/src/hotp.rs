//! HOTP (RFC 4226) code generation: an HMAC over the big-endian counter,
//! dynamic truncation, and the zero-padded decimal code.

use hmac::{Hmac, Mac};
use sha1::Sha1;
use sha2::{Sha256, Sha512};
use vstd::prelude::*;

use crate::decimal::{
    all_digits, decimal_chars, decimal_text, decimal_value, is_digit, lemma_decimal_text_len,
    lemma_decimal_text_value, lemma_left_pad_digits, lemma_pow10_positive, left_pad, parse_unsigned,
    pow10, ten_to_the, unsigned_digits,
};
use crate::text::{push_char, same_text, to_uppercase, uppercase};

verus! {

/// The HMAC hash functions an account can use.
#[derive(Clone, Copy, Debug, PartialEq, Eq, Structural)]
pub enum Algorithm {
    SHA1,
    SHA256,
    SHA512,
}

/// HMAC-SHA1 of `message` under `key`.
pub uninterp spec fn hmac_sha1_tag(key: Seq<u8>, message: Seq<u8>) -> Seq<u8>;

/// HMAC-SHA256 of `message` under `key`.
pub uninterp spec fn hmac_sha256_tag(key: Seq<u8>, message: Seq<u8>) -> Seq<u8>;

/// HMAC-SHA512 of `message` under `key`.
pub uninterp spec fn hmac_sha512_tag(key: Seq<u8>, message: Seq<u8>) -> Seq<u8>;

/// The HMAC tag of `message` under `key` with the given hash function.
pub open spec fn hmac_tag(algorithm: Algorithm, key: Seq<u8>, message: Seq<u8>) -> Seq<u8> {
    match algorithm {
        Algorithm::SHA1 => hmac_sha1_tag(key, message),
        Algorithm::SHA256 => hmac_sha256_tag(key, message),
        Algorithm::SHA512 => hmac_sha512_tag(key, message),
    }
}

/// The output size in bytes of each hash function.
pub open spec fn tag_len(algorithm: Algorithm) -> nat {
    match algorithm {
        Algorithm::SHA1 => 20,
        Algorithm::SHA256 => 32,
        Algorithm::SHA512 => 64,
    }
}

/// `Hmac::<Sha1>`: keyed with `key` (any length is accepted), fed `message`,
/// finalized. The tag is the HMAC-SHA1 value, 20 bytes long.
#[verifier::external_body]
fn hmac_sha1(key: &[u8], message: &[u8]) -> (tag: Vec<u8>)
    ensures
        tag@ == hmac_sha1_tag(key@, message@),
        tag@.len() == 20,
{
    let mut mac = <Hmac<Sha1> as Mac>::new_from_slice(key).expect("HMAC accepts any key length");
    mac.update(message);
    mac.finalize().into_bytes().to_vec()
}

/// `Hmac::<Sha256>`: keyed with `key` (any length is accepted), fed `message`,
/// finalized. The tag is the HMAC-SHA256 value, 32 bytes long.
#[verifier::external_body]
fn hmac_sha256(key: &[u8], message: &[u8]) -> (tag: Vec<u8>)
    ensures
        tag@ == hmac_sha256_tag(key@, message@),
        tag@.len() == 32,
{
    let mut mac = <Hmac<Sha256> as Mac>::new_from_slice(key).expect("HMAC accepts any key length");
    mac.update(message);
    mac.finalize().into_bytes().to_vec()
}

/// `Hmac::<Sha512>`: keyed with `key` (any length is accepted), fed `message`,
/// finalized. The tag is the HMAC-SHA512 value, 64 bytes long.
#[verifier::external_body]
fn hmac_sha512(key: &[u8], message: &[u8]) -> (tag: Vec<u8>)
    ensures
        tag@ == hmac_sha512_tag(key@, message@),
        tag@.len() == 64,
{
    let mut mac = <Hmac<Sha512> as Mac>::new_from_slice(key).expect("HMAC accepts any key length");
    mac.update(message);
    mac.finalize().into_bytes().to_vec()
}

/// The HMAC tag under the chosen hash function.
pub fn hmac_sign(algorithm: Algorithm, key: &[u8], message: &[u8]) -> (tag: Vec<u8>)
    ensures
        tag@ == hmac_tag(algorithm, key@, message@),
        tag@.len() == tag_len(algorithm),
{
    match algorithm {
        Algorithm::SHA1 => hmac_sha1(key, message),
        Algorithm::SHA256 => hmac_sha256(key, message),
        Algorithm::SHA512 => hmac_sha512(key, message),
    }
}

/// The hash function that an uppercased algorithm name selects: `SHA256` and
/// `SHA512` select those, any other name selects SHA-1.
pub open spec fn algorithm_for_upper(name: Seq<char>) -> Algorithm {
    if name == "SHA256"@ {
        Algorithm::SHA256
    } else if name == "SHA512"@ {
        Algorithm::SHA512
    } else {
        Algorithm::SHA1
    }
}

/// The hash function that an account's algorithm name selects, compared
/// after uppercasing.
pub open spec fn algorithm_for_name(name: Seq<char>) -> Algorithm {
    algorithm_for_upper(uppercase(name))
}

/// The hash function selected by an algorithm name that is already
/// uppercased.
pub fn algorithm_from_upper(name: &str) -> (algorithm: Algorithm)
    ensures
        algorithm == algorithm_for_upper(name@),
{
    if same_text(name, "SHA256") {
        Algorithm::SHA256
    } else if same_text(name, "SHA512") {
        Algorithm::SHA512
    } else {
        Algorithm::SHA1
    }
}

/// The hash function named by an account's algorithm text, in any case;
/// unknown names select SHA-1.
pub fn parse_algorithm(name: &str) -> (algorithm: Algorithm)
    ensures
        algorithm == algorithm_for_name(name@),
{
    let upper = to_uppercase(name);
    algorithm_from_upper(upper.as_str())
}

/// The eight big-endian bytes of a counter.
pub open spec fn be_bytes(n: u64) -> Seq<u8> {
    seq![
        (n >> 56u64) as u8,
        (n >> 48u64) as u8,
        (n >> 40u64) as u8,
        (n >> 32u64) as u8,
        (n >> 24u64) as u8,
        (n >> 16u64) as u8,
        (n >> 8u64) as u8,
        n as u8,
    ]
}

/// `u64::to_be_bytes`.
pub fn counter_bytes(n: u64) -> (bytes: Vec<u8>)
    ensures
        bytes@ == be_bytes(n),
{
    let mut bytes: Vec<u8> = Vec::new();
    bytes.push((n >> 56u64) as u8);
    bytes.push((n >> 48u64) as u8);
    bytes.push((n >> 40u64) as u8);
    bytes.push((n >> 32u64) as u8);
    bytes.push((n >> 24u64) as u8);
    bytes.push((n >> 16u64) as u8);
    bytes.push((n >> 8u64) as u8);
    bytes.push(n as u8);
    assert(bytes@ =~= be_bytes(n));
    bytes
}

/// Position of the four bytes that dynamic truncation reads: the low nibble
/// of the last byte.
pub open spec fn truncation_offset(tag: Seq<u8>) -> int {
    (tag.last() % 16) as int
}

/// A tag long enough for dynamic truncation to read its four bytes.
pub open spec fn truncatable(tag: Seq<u8>) -> bool {
    &&& tag.len() > 0
    &&& truncation_offset(tag) + 4 <= tag.len()
}

/// RFC 4226 dynamic truncation: the 31-bit big-endian number at the offset.
pub open spec fn truncated_value(tag: Seq<u8>) -> nat {
    let o = truncation_offset(tag);
    ((tag[o] % 128) as nat) * 0x1000000 + (tag[o + 1] as nat) * 0x10000 + (tag[o + 2] as nat)
        * 0x100 + (tag[o + 3] as nat)
}

/// The HOTP value of a tag: its truncated number modulo `10^digits`.
pub open spec fn hotp_value(tag: Seq<u8>, digits: nat) -> nat {
    truncated_value(tag) % pow10(digits)
}

/// The HOTP code text of a tag: the value in decimal, zero-padded on the left
/// to `digits` characters.
pub open spec fn hotp_code_text(tag: Seq<u8>, digits: nat) -> Seq<char> {
    left_pad(decimal_text(hotp_value(tag, digits)), digits, '0')
}

/// The HOTP code of an account's decoded secret at a counter.
pub open spec fn hotp_code(secret: Seq<u8>, counter: u64, digits: nat, algorithm: Algorithm) -> Seq<char> {
    hotp_code_text(hmac_tag(algorithm, secret, be_bytes(counter)), digits)
}

/// An HOTP code is made of exactly `digits` decimal digits (one digit, `0`,
/// when `digits` is zero), and read as a number it is the HOTP value.
pub proof fn lemma_hotp_code_shape(tag: Seq<u8>, digits: nat)
    ensures
        hotp_code_text(tag, digits).len() == if digits == 0 { 1 } else { digits },
        all_digits(hotp_code_text(tag, digits)),
        decimal_value(hotp_code_text(tag, digits)) == hotp_value(tag, digits),
        hotp_value(tag, digits) < pow10(digits),
        hotp_value(tag, digits) <= u32::MAX ==> parse_unsigned(hotp_code_text(tag, digits), u32::MAX as nat)
            == Some(hotp_value(tag, digits)),
{
    let v = hotp_value(tag, digits);
    lemma_pow10_positive(digits);
    lemma_decimal_text_value(v);
    if digits >= 1 {
        lemma_decimal_text_len(v, digits);
    }
    lemma_left_pad_digits(decimal_text(v), digits);
    let code = hotp_code_text(tag, digits);
    assert(is_digit(code[0]));
    assert(unsigned_digits(code) == code);
}

/// The HOTP code of an HMAC tag: dynamic truncation, reduction modulo
/// `10^digits`, and the decimal text zero-padded to `digits` characters.
pub fn code_from_tag(tag: &[u8], digits: usize) -> (code: String)
    requires
        truncatable(tag@),
        digits <= 9,
    ensures
        code@ == hotp_code_text(tag@, digits as nat),
{
    let last = tag[tag.len() - 1];
    let offset = (last & 0x0f) as usize;
    assert(last & 0x0f == last % 16) by (bit_vector);
    let b0 = tag[offset];
    let b1 = tag[offset + 1];
    let b2 = tag[offset + 2];
    let b3 = tag[offset + 3];
    let binary: u32 = (((b0 as u32) & 0x7f) << 24u32) | ((b1 as u32) << 16u32) | ((b2 as u32) << 8u32)
        | (b3 as u32);
    assert(binary == (b0 % 128) as u32 * 0x1000000u32 + b1 as u32 * 0x10000u32 + b2 as u32 * 0x100u32 + b3 as u32) by (bit_vector)
        requires
            binary == (((b0 as u32) & 0x7f) << 24u32) | ((b1 as u32) << 16u32) | ((b2 as u32) << 8u32)
                | (b3 as u32),
    ;
    let modulus = ten_to_the(digits);
    proof {
        lemma_pow10_positive(digits as nat);
    }
    let otp = binary % modulus;
    let text = decimal_chars(otp);
    let mut code = String::new();
    let mut k: usize = text.len();
    while k < digits
        invariant
            text.len() <= k,
            k <= digits || k == text.len(),
            code@ == Seq::new((k - text.len()) as nat, |i: int| '0'),
        decreases digits - k,
    {
        push_char(&mut code, '0');
        assert(code@ =~= Seq::new((k + 1 - text.len()) as nat, |i: int| '0'));
        k = k + 1;
    }
    let n = text.len();
    let ghost pad = code@;
    for i in 0..n
        invariant
            n == text@.len(),
            code@ == pad + text@.subrange(0, i as int),
    {
        push_char(&mut code, text[i]);
        assert(text@.subrange(0, i + 1) =~= text@.subrange(0, i as int).push(text@[i as int]));
    }
    assert(text@.subrange(0, n as int) =~= text@);
    assert(code@ =~= left_pad(decimal_text(otp as nat), digits as nat, '0'));
    code
}

/// Generates the HOTP code for a counter with the given secret, digit count
/// and hash function.
pub fn generate_hotp(secret: &[u8], counter: u64, digits: usize, algorithm: Algorithm) -> (code: String)
    requires
        digits <= 9,
    ensures
        code@ == hotp_code(secret@, counter, digits as nat, algorithm),
{
    let counter_bytes = counter_bytes(counter);
    let tag = hmac_sign(algorithm, secret, counter_bytes.as_slice());
    code_from_tag(tag.as_slice(), digits)
}

} // verus!
