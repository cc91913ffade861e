use authenticator::account::{
    add_account, details_at, get_all_codes_at, code_inputs_ok, default_otp_type, delete_account, find_account, generate_hotp_code,
    generate_totp_code, get_all_codes, get_all_codes_checked, next_hotp_code, next_hotp_code_checked,
    totp_code_for_account, verify_account, verify_account_checked, Account, OtpType,
};
use authenticator::hotp::{generate_hotp, Algorithm};

const SECRET: &str = "GEZDGNBVGY3TQOJQGEZDGNBVGY3TQOJQ"; // "12345678901234567890"

fn account(id: &str, otp_type: OtpType, digits: usize, counter: u64) -> Account {
    Account {
        id: id.to_string(),
        issuer: "ACME".to_string(),
        label: format!("user-{}", id),
        secret: SECRET.to_string(),
        digits,
        period: 30,
        algorithm: "sha1".to_string(),
        otp_type,
        counter,
    }
}

#[test]
fn default_kind_is_totp() {
    assert_eq!(default_otp_type(), OtpType::Totp);
}

#[test]
fn hotp_account_code() {
    let a = account("1", OtpType::Hotp, 6, 1);
    assert_eq!(generate_hotp_code(&a).unwrap(), "287082");
    let mut bad = account("2", OtpType::Hotp, 6, 1);
    bad.secret = "not base32!".to_string();
    assert_eq!(generate_hotp_code(&bad).unwrap_err(), "Invalid secret: Could not decode base32 secret.");
}

#[test]
fn totp_account_code_at_time() {
    let mut a = account("1", OtpType::Totp, 8, 0);
    a.algorithm = "SHA1".to_string();
    assert_eq!(totp_code_for_account(&a, 59).unwrap(), ("94287082".to_string(), 1));
    let (code, remaining) = generate_totp_code(&a).unwrap();
    assert_eq!(code.len(), 8);
    assert!(1 <= remaining && remaining <= 30);
}

#[test]
fn listing_shows_every_account() {
    let mut bad = account("3", OtpType::Totp, 6, 0);
    bad.secret = "x".to_string();
    let accounts = vec![account("1", OtpType::Hotp, 6, 0), account("2", OtpType::Totp, 6, 0), bad];
    let listing = get_all_codes(&accounts);
    assert_eq!(listing.len(), 3);
    assert_eq!(listing[0].id, "1");
    assert_eq!(listing[0].code, "755224");
    assert_eq!(listing[0].seconds_remaining, 0);
    assert_eq!(listing[0].otp_type, "hotp");
    assert_eq!(listing[1].otp_type, "totp");
    assert_eq!(listing[1].code.len(), 6);
    assert!(listing[1].seconds_remaining >= 1 && listing[1].seconds_remaining <= 30);
    assert_eq!(listing[2].code, "ERR: Invalid secret: Could not decode base32 secret.");
    assert_eq!(listing[2].seconds_remaining, 0);
    assert_eq!(listing[2].label, "user-3");
}

#[test]
fn checked_listing_refuses_overlong_codes() {
    let accounts = vec![account("1", OtpType::Hotp, 10, 0)];
    assert!(!code_inputs_ok(&accounts[0]));
    assert!(get_all_codes_checked(&accounts).is_none());
    let mut zero_period = account("2", OtpType::Totp, 6, 0);
    zero_period.period = 0;
    assert!(get_all_codes_checked(&vec![zero_period]).is_none());
    let mut undecodable = account("3", OtpType::Hotp, 10, 0);
    undecodable.secret = "?".to_string();
    assert!(code_inputs_ok(&undecodable));
    assert_eq!(get_all_codes_checked(&vec![undecodable]).unwrap()[0].code.len(), 5 + 47);
}

#[test]
fn next_hotp_advances_first_matching_counter() {
    let mut accounts = vec![account("1", OtpType::Totp, 6, 0), account("2", OtpType::Hotp, 6, 0), account("2", OtpType::Hotp, 6, 7)];
    let code = next_hotp_code(&mut accounts, "2").unwrap();
    assert_eq!(code, "287082");
    assert_eq!(accounts[1].counter, 1);
    assert_eq!(accounts[2].counter, 7);
    assert_eq!(accounts[0].counter, 0);
    let code = next_hotp_code(&mut accounts, "2").unwrap();
    assert_eq!(code, generate_hotp(b"12345678901234567890", 2, 6, Algorithm::SHA1));
}

#[test]
fn next_hotp_errors() {
    let mut accounts = vec![account("1", OtpType::Totp, 6, 0)];
    assert_eq!(next_hotp_code(&mut accounts, "9").unwrap_err(), "Account not found");
    assert_eq!(next_hotp_code(&mut accounts, "1").unwrap_err(), "Not an HOTP account");
    assert_eq!(accounts[0].counter, 0);
    let mut bad = vec![account("5", OtpType::Hotp, 6, 3)];
    bad[0].secret = "@".to_string();
    assert!(next_hotp_code(&mut bad, "5").is_err());
    assert_eq!(bad[0].counter, 4);
}

#[test]
fn next_hotp_checked_refuses_overflow() {
    let mut accounts = vec![account("1", OtpType::Hotp, 6, u64::MAX)];
    assert!(next_hotp_code_checked(&mut accounts, "1").is_none());
    assert_eq!(accounts[0].counter, u64::MAX);
    let mut ok = vec![account("1", OtpType::Hotp, 6, 0)];
    assert_eq!(next_hotp_code_checked(&mut ok, "1").unwrap().unwrap(), "287082");
}

#[test]
fn add_account_cleans_secret_and_defaults() {
    let mut accounts = Vec::new();
    let id = add_account(
        &mut accounts,
        "42".to_string(),
        "ACME".to_string(),
        "me".to_string(),
        "gezd gnbv gy3t qojq gezd gnbv gy3t qojq".to_string(),
        None,
        None,
        None,
        None,
        None,
    )
    .unwrap();
    assert_eq!(id, "42");
    assert_eq!(accounts.len(), 1);
    let a = &accounts[0];
    assert_eq!(a.secret, SECRET);
    assert_eq!(a.digits, 6);
    assert_eq!(a.period, 30);
    assert_eq!(a.algorithm, "SHA1");
    assert_eq!(a.otp_type, OtpType::Totp);
    assert_eq!(a.counter, 0);
    add_account(
        &mut accounts,
        "43".to_string(),
        "B".to_string(),
        "you".to_string(),
        SECRET.to_string(),
        Some(8),
        Some(60),
        Some("SHA256".to_string()),
        Some("hotp".to_string()),
        Some(5),
    )
    .unwrap();
    assert_eq!(accounts[1].otp_type, OtpType::Hotp);
    assert_eq!(accounts[1].digits, 8);
    assert_eq!(accounts[1].counter, 5);
    let refused = add_account(
        &mut accounts,
        "44".to_string(),
        "C".to_string(),
        "x".to_string(),
        "1!".to_string(),
        None,
        None,
        None,
        Some("HOTP".to_string()),
        None,
    );
    assert_eq!(refused.unwrap_err(), "Invalid secret: Could not decode base32 secret.");
    assert_eq!(accounts.len(), 2);
}

#[test]
fn delete_account_removes_every_match() {
    let mut accounts = vec![account("1", OtpType::Totp, 6, 0), account("2", OtpType::Hotp, 6, 0), account("1", OtpType::Hotp, 6, 0)];
    delete_account(&mut accounts, "1");
    assert_eq!(accounts.len(), 1);
    assert_eq!(accounts[0].id, "2");
    delete_account(&mut accounts, "7");
    assert_eq!(accounts.len(), 1);
    assert_eq!(find_account(&accounts, "1"), None);
    assert_eq!(find_account(&accounts, "2"), Some(0));
}

#[test]
fn verify_account_details() {
    let accounts = vec![account("1", OtpType::Hotp, 6, 1), account("2", OtpType::Totp, 6, 0)];
    let d = verify_account(&accounts, "1").unwrap();
    assert_eq!(d.stored_secret, SECRET);
    assert_eq!(d.secret_length_bytes, 20);
    assert_eq!(d.otp_type, "Hotp");
    assert_eq!(d.current_code, "287082");
    assert_eq!(d.seconds_remaining, 0);
    let t = verify_account(&accounts, "2").unwrap();
    assert_eq!(t.otp_type, "Totp");
    assert_eq!(t.current_code.len(), 6);
    assert!(t.unix_time > 1_600_000_000);
    assert_eq!(verify_account(&accounts, "3").unwrap_err(), "Account not found");
    let mut bad = vec![account("4", OtpType::Totp, 6, 0)];
    bad[0].secret = "~".to_string();
    assert_eq!(verify_account(&bad, "4").unwrap_err(), "Invalid secret: Could not decode base32 secret.");
    bad[0].secret = SECRET.to_string();
    bad[0].period = 0;
    assert!(verify_account_checked(&bad, "4").is_none());
}

#[test]
fn delete_undoes_add_of_fresh_id() {
    let mut accounts = vec![account("1", OtpType::Totp, 6, 0), account("2", OtpType::Hotp, 6, 3)];
    add_account(
        &mut accounts,
        "3".to_string(),
        "I".to_string(),
        "L".to_string(),
        SECRET.to_string(),
        None,
        None,
        None,
        None,
        None,
    )
    .unwrap();
    assert_eq!(accounts.len(), 3);
    delete_account(&mut accounts, "3");
    let ids: Vec<&str> = accounts.iter().map(|a| a.id.as_str()).collect();
    assert_eq!(ids, vec!["1", "2"]);
    assert_eq!(accounts[1].counter, 3);
}

#[test]
fn details_at_given_readings() {
    let mut totp = account("2", OtpType::Totp, 8, 0);
    totp.algorithm = "SHA1".to_string();
    let accounts = vec![account("1", OtpType::Hotp, 6, 1), totp];
    let d = details_at(&accounts, "2", 1_000, 59).unwrap();
    assert_eq!(d.unix_time, 1_000);
    assert_eq!(d.current_code, "94287082");
    assert_eq!(d.seconds_remaining, 1);
    assert_eq!(d.otp_type, "Totp");
    assert_eq!(d.algorithm, "SHA1");
    assert_eq!(d.period, 30);
    let h = details_at(&accounts, "1", 5, 7).unwrap();
    assert_eq!(h.unix_time, 5);
    assert_eq!(h.current_code, "287082");
    assert_eq!(h.seconds_remaining, 0);
    assert_eq!(details_at(&accounts, "9", 0, 0).unwrap_err(), "Account not found");
    let now = verify_account(&accounts, "1").unwrap().unix_time;
    assert!(now >= 1_600_000_000);
}

#[test]
fn listing_at_given_readings() {
    let totp = account("2", OtpType::Totp, 8, 0);
    let late = account("4", OtpType::Totp, 8, 0);
    let mut bad = account("3", OtpType::Totp, 6, 0);
    bad.secret = "1".to_string();
    let accounts = vec![account("1", OtpType::Hotp, 6, 1), totp, late, bad];
    let readings = vec![Ok(0), Ok(59), Err("Time error: before the epoch".to_string()), Ok(59)];
    let listing = get_all_codes_at(&accounts, &readings);
    assert_eq!(listing[0].code, "287082");
    assert_eq!((listing[1].code.as_str(), listing[1].seconds_remaining), ("94287082", 1));
    assert_eq!(listing[2].code, "ERR: Time error: before the epoch");
    assert_eq!(listing[2].seconds_remaining, 0);
    assert_eq!(listing[3].code, "ERR: Invalid secret: Could not decode base32 secret.");
}
