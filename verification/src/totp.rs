//! TOTP (RFC 6238) codes: the HOTP code of the time step, computed by
//! `totp_rs`, and the seconds left in the current step.

use std::time::{SystemTime, UNIX_EPOCH};
use totp_rs::TOTP;
use vstd::prelude::*;

use crate::hotp::{hotp_code, Algorithm};

verus! {

/// `TOTP::new_unchecked(algorithm, digits, 1, step, secret, Some(issuer),
/// label).generate(time)`. `totp_rs` signs the big-endian bytes of
/// `time / step` with the HMAC of the chosen hash under the secret (the same
/// `Hmac` calls as `hmac_sign`), truncates dynamically, and writes the value
/// modulo `10^digits` zero-padded to `digits` characters: the HOTP code of
/// the time step. A zero step would divide by zero, and more than nine digits
/// overflow `10_u32.pow`.
#[verifier::external_body]
fn totp_generate(
    algorithm: Algorithm,
    digits: usize,
    step: u64,
    secret: &Vec<u8>,
    issuer: &String,
    label: &String,
    time: u64,
) -> (code: String)
    requires
        step > 0,
        digits <= 9,
    ensures
        code@ == hotp_code(secret@, time / step, digits as nat, algorithm),
{
    let algorithm = match algorithm {
        Algorithm::SHA1 => totp_rs::Algorithm::SHA1,
        Algorithm::SHA256 => totp_rs::Algorithm::SHA256,
        Algorithm::SHA512 => totp_rs::Algorithm::SHA512,
    };
    TOTP::new_unchecked(algorithm, digits, 1, step, secret.clone(), Some(issuer.clone()), label.clone())
        .generate(time)
}

/// `SystemTime::now().duration_since(UNIX_EPOCH)` in whole seconds, or the
/// text of the error where the clock reads before the epoch. What it returns
/// depends on the clock, so nothing is stated of it.
#[verifier::external_body]
pub(crate) fn unix_time_secs() -> (r: Result<u64, String>) {
    match SystemTime::now().duration_since(UNIX_EPOCH) {
        Ok(elapsed) => Ok(elapsed.as_secs()),
        Err(e) => Err(e.to_string()),
    }
}

/// Seconds left in the step that `time` falls in.
pub open spec fn seconds_remaining(period: u64, time: u64) -> u64 {
    (period - time % period) as u64
}

/// The TOTP code at a time and the seconds it stays valid.
pub fn totp_code_at(
    algorithm: Algorithm,
    digits: usize,
    period: u64,
    secret: &Vec<u8>,
    issuer: &String,
    label: &String,
    time: u64,
) -> (r: (String, u64))
    requires
        period > 0,
        digits <= 9,
    ensures
        r.0@ == hotp_code(secret@, time / period, digits as nat, algorithm),
        r.1 == seconds_remaining(period, time),
{
    let code = totp_generate(algorithm, digits, period, secret, issuer, label, time);
    let elapsed = time % period;
    let remaining = period - elapsed;
    (code, remaining)
}

/// The seconds left are between one and the period, and they end the step
/// exactly at the next multiple of the period.
pub proof fn lemma_seconds_remaining(period: u64, time: u64)
    requires
        period > 0,
    ensures
        1 <= seconds_remaining(period, time) <= period,
        (time + seconds_remaining(period, time)) % (period as int) == 0,
        (time + seconds_remaining(period, time)) / (period as int) == time / period + 1,
{
    let p = period as int;
    let t = time as int;
    assert(t == p * (t / p) + t % p) by (nonlinear_arith)
        requires
            p > 0,
    ;
    assert(t + (p - t % p) == p * (t / p + 1)) by (nonlinear_arith)
        requires
            t == p * (t / p) + t % p,
    ;
    assert(0 <= t % p < p) by {
        vstd::arithmetic::div_mod::lemma_mod_bound(t, p);
    }
    vstd::arithmetic::div_mod::lemma_mod_multiples_basic(t / p + 1, p);
    vstd::arithmetic::div_mod::lemma_div_multiples_vanish(t / p + 1, p);
}

/// Two times in the same step have the same TOTP code.
pub proof fn lemma_totp_code_constant_in_step(
    secret: Seq<u8>,
    digits: nat,
    algorithm: Algorithm,
    period: u64,
    t1: u64,
    t2: u64,
)
    requires
        period > 0,
        t1 / period == t2 / period,
    ensures
        hotp_code(secret, t1 / period, digits, algorithm) == hotp_code(secret, t2 / period, digits, algorithm),
{
}

} // verus!
