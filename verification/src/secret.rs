//! Shared secrets: Base32 padding and decoding of the stored secret text.

use totp_rs::{Secret, SecretParseError};
use vstd::prelude::*;
use vstd::utf8::encode_utf8;

use crate::text::push_char;

verus! {

/// `totp_rs::SecretParseError`, the error of decoding a Base32 secret.
#[verifier::external_type_specification]
#[verifier::external_body]
pub struct ExSecretParseError(SecretParseError);

/// Length in bytes of the UTF-8 encoding of a text.
pub open spec fn utf8_len(s: Seq<char>) -> nat {
    encode_utf8(s).len()
}

/// How many `=` bring a text of `len` bytes to a multiple of eight bytes.
pub open spec fn pad_count(len: nat) -> nat {
    if len % 8 == 0 {
        0
    } else {
        (8 - len % 8) as nat
    }
}

/// `n` padding characters.
pub open spec fn padding(n: nat) -> Seq<char> {
    Seq::new(n, |i: int| '=')
}

/// The Base32 text padded with `=` to a multiple of eight bytes.
pub open spec fn padded(s: Seq<char>) -> Seq<char> {
    s + padding(pad_count(utf8_len(s)))
}

fn char_utf8_width(c: char) -> (w: usize)
    ensures
        w == encode_utf8(seq![c]).len(),
        1 <= w <= 4,
{
    proof {
        vstd::utf8::char_is_scalar(c);
        let t = seq![c];
        assert(t.drop_first() =~= Seq::<char>::empty());
        assert(encode_utf8(Seq::<char>::empty()) =~= Seq::<u8>::empty());
        assert(encode_utf8(t) =~= vstd::utf8::encode_scalar(c as u32));
    }
    let u = c as u32;
    if u < 0x80 {
        1
    } else if u < 0x800 {
        2
    } else if u < 0x10000 {
        3
    } else {
        4
    }
}

/// The length in bytes of the UTF-8 encoding of `s`, modulo eight.
fn utf8_len_mod8(s: &str) -> (r: usize)
    ensures
        r == utf8_len(s@) % 8,
{
    let n = s.unicode_len();
    let mut r: usize = 0;
    for i in 0..n
        invariant
            n == s@.len(),
            r == utf8_len(s@.subrange(0, i as int)) % 8,
    {
        let c = s.get_char(i);
        let w = char_utf8_width(c);
        proof {
            assert(s@.subrange(0, i + 1) =~= s@.subrange(0, i as int) + seq![c]);
            lemma_utf8_len_concat(s@.subrange(0, i as int), seq![c]);
        }
        r = (r + w) % 8;
    }
    assert(s@.subrange(0, n as int) =~= s@);
    r
}

/// Pads a Base32 text with `=` until its length in bytes is a multiple of
/// eight.
pub fn pad_base32(s: &str) -> (r: String)
    ensures
        r@ == padded(s@),
{
    let mut r = s.to_owned();
    let remainder = utf8_len_mod8(s);
    if remainder != 0 {
        let count = 8 - remainder;
        let mut i: usize = 0;
        while i < count
            invariant
                i <= count,
                r@ == s@ + padding(i as nat),
            decreases count - i,
        {
            push_char(&mut r, '=');
            assert(r@ =~= s@ + padding((i + 1) as nat));
            i = i + 1;
        }
    } else {
        assert(r@ =~= s@ + padding(0));
    }
    r
}

proof fn lemma_utf8_len_concat(a: Seq<char>, b: Seq<char>)
    ensures
        utf8_len(a + b) == utf8_len(a) + utf8_len(b),
    decreases a.len(),
{
    if a.len() == 0 {
        assert(a + b =~= b);
    } else {
        assert((a + b).drop_first() =~= a.drop_first() + b);
        lemma_utf8_len_concat(a.drop_first(), b);
    }
}

proof fn lemma_utf8_len_padding(n: nat)
    ensures
        utf8_len(padding(n)) == n,
    decreases n,
{
    if n > 0 {
        assert(padding(n).drop_first() =~= padding((n - 1) as nat));
        lemma_utf8_len_padding((n - 1) as nat);
    }
}

/// A padded text is a whole number of eight-byte blocks, and padding it again
/// changes nothing.
pub proof fn lemma_pad_base32_blocks(s: Seq<char>)
    ensures
        utf8_len(padded(s)) % 8 == 0,
        padded(padded(s)) == padded(s),
        pad_count(utf8_len(s)) < 8,
{
    lemma_utf8_len_concat(s, padding(pad_count(utf8_len(s))));
    lemma_utf8_len_padding(pad_count(utf8_len(s)));
    assert(padded(s) + padding(0) =~= padded(s));
}

/// The bytes that `Secret::Encoded(text).to_bytes()` decodes from a Base32
/// text, or `None` where the text is not Base32 that it accepts.
pub uninterp spec fn base32_secret_bytes(encoded: Seq<char>) -> Option<Seq<u8>>;

/// `Secret::Encoded(text).to_bytes()`: the Base32 decoding of the text.
#[verifier::external_body]
fn encoded_secret_bytes(encoded: &str) -> (r: Result<Vec<u8>, SecretParseError>)
    ensures
        match r {
            Ok(bytes) => base32_secret_bytes(encoded@) == Some(bytes@),
            Err(_) => base32_secret_bytes(encoded@) is None,
        },
{
    Secret::Encoded(encoded.to_string()).to_bytes()
}

/// The text of a `SecretParseError`; its one variant reads
/// "Could not decode base32 secret.".
#[verifier::external_body]
fn secret_error_text(e: &SecretParseError) -> (text: String)
    ensures
        text@ == "Could not decode base32 secret."@,
{
    e.to_string()
}

/// The error message of a secret that does not decode.
pub open spec fn invalid_secret_message() -> Seq<char> {
    "Invalid secret: "@ + "Could not decode base32 secret."@
}

/// What decoding a stored secret gives: the bytes of the padded Base32 text,
/// or the invalid-secret message.
pub open spec fn decoded_secret(secret: Seq<char>) -> Result<Seq<u8>, Seq<char>> {
    match base32_secret_bytes(padded(secret)) {
        Some(bytes) => Ok(bytes),
        None => Err(invalid_secret_message()),
    }
}

/// Whether a stored secret decodes.
pub open spec fn secret_decodes(secret: Seq<char>) -> bool {
    base32_secret_bytes(padded(secret)) is Some
}

/// Decodes a stored Base32 secret, padding it first.
pub fn decode_secret(secret: &str) -> (r: Result<Vec<u8>, String>)
    ensures
        match r {
            Ok(bytes) => decoded_secret(secret@) == Ok::<Seq<u8>, Seq<char>>(bytes@),
            Err(message) => decoded_secret(secret@) == Err::<Seq<u8>, Seq<char>>(message@),
        },
{
    let padded_text = pad_base32(secret);
    match encoded_secret_bytes(padded_text.as_str()) {
        Ok(bytes) => Ok(bytes),
        Err(e) => {
            let detail = secret_error_text(&e);
            let message = String::from_str("Invalid secret: ").concat(detail.as_str());
            Err(message)
        },
    }
}

} // verus!
