use authenticator::uri::{
    clean_otpauth_uri, is_whitespace, parse_otpauth_uri, parse_otpauth_uri_checked, ParsedUri,
};

fn fields(p: &ParsedUri) -> (String, String, String, usize, u64, String, String, u64) {
    (
        p.issuer.clone(),
        p.label.clone(),
        p.secret.clone(),
        p.digits,
        p.period,
        p.algorithm.clone(),
        p.otp_type.clone(),
        p.counter,
    )
}

#[test]
fn clean_strips_unknown_params() {
    assert_eq!(
        clean_otpauth_uri("otpauth://totp/Issuer:me?secret=ABC&issuer=X&codeDisplay=%7B%22pinned%22%7D&period=30"),
        "otpauth://totp/Issuer:me?secret=ABC&issuer=X&period=30"
    );
    assert_eq!(clean_otpauth_uri("  otpauth://totp/a?secret=B\n"), "otpauth://totp/a?secret=B");
    assert_eq!(clean_otpauth_uri("\u{3000}otpauth://totp/a\t"), "otpauth://totp/a");
    assert_eq!(clean_otpauth_uri("x?foo=1&bar"), "x?");
    assert_eq!(clean_otpauth_uri("x?digits=8&&counter"), "x?digits=8&counter");
    assert_eq!(clean_otpauth_uri("x?a=1?b&secret=2?c"), "x?secret=2?c");
    assert_eq!(clean_otpauth_uri("x?secretive=1&secret"), "x?secret");
}

#[test]
fn whitespace_matches_std() {
    for c in ['\t', '\n', ' ', '\u{85}', '\u{a0}', '\u{1680}', '\u{2000}', '\u{200a}', '\u{200b}', '\u{2028}', '\u{202f}', '\u{205f}', '\u{3000}', 'a', '\u{180e}', '\u{feff}'] {
        assert_eq!(is_whitespace(c), c.is_whitespace());
    }
}

#[test]
fn parse_hotp_uri() {
    let p = parse_otpauth_uri("otpauth://hotp/ACME%20Co:john@example.com?secret=jbswy3dpehpk3pxp&counter=5&digits=8&algorithm=sha256&utm=1".to_string()).unwrap();
    assert_eq!(
        fields(&p),
        (
            "ACME Co".to_string(),
            "john@example.com".to_string(),
            "JBSWY3DPEHPK3PXP".to_string(),
            8,
            30,
            "SHA256".to_string(),
            "hotp".to_string(),
            5
        )
    );
}

#[test]
fn parse_hotp_uri_defaults_and_issuer_param() {
    let p = parse_otpauth_uri("  OTPAUTH://HOTP/alice?secret=ABC&issuer=Big%20Bank&digits=x&period=-1 ".to_string()).unwrap();
    assert_eq!(
        fields(&p),
        ("Big Bank".to_string(), "alice".to_string(), "ABC".to_string(), 6, 30, "SHA1".to_string(), "hotp".to_string(), 0)
    );
}

#[test]
fn parse_hotp_uri_errors() {
    assert_eq!(
        parse_otpauth_uri("otpauth://hotp/a?issuer=x".to_string()).unwrap_err(),
        "No secret found in URI"
    );
    assert!(parse_otpauth_uri("otpauth://hotp/%FF?secret=A".to_string()).unwrap_err().starts_with("Decode error: "));
}

#[test]
fn parse_totp_uri() {
    let p = parse_otpauth_uri(
        "otpauth://totp/ACME:john?secret=JBSWY3DPEHPK3PXPJBSWY3DPEHPK3PXP&issuer=ACME&algorithm=SHA256&digits=8&period=60&image=x"
            .to_string(),
    )
    .unwrap();
    assert_eq!(
        fields(&p),
        (
            "ACME".to_string(),
            "john".to_string(),
            "JBSWY3DPEHPK3PXPJBSWY3DPEHPK3PXP".to_string(),
            8,
            60,
            "SHA256".to_string(),
            "totp".to_string(),
            0
        )
    );
}

#[test]
fn parse_totp_uri_errors() {
    assert!(parse_otpauth_uri("otpauth://totp/x?secret=AA".to_string()).unwrap_err().starts_with("Invalid otpauth URI: "));
    assert!(parse_otpauth_uri("not a uri".to_string()).unwrap_err().starts_with("Invalid otpauth URI: "));
}

#[test]
fn hostless_otpauth_uri_is_refused_by_checked_parse() {
    assert!(parse_otpauth_uri_checked("otpauth:x".to_string()).is_none());
    assert!(parse_otpauth_uri_checked("otpauth:/totp/x?secret=GEZDGNBV".to_string()).is_none());
    assert!(parse_otpauth_uri_checked("otpauth://hotp/x?secret=A".to_string()).unwrap().is_ok());
    assert!(parse_otpauth_uri_checked("https:x".to_string()).unwrap().is_err());
}

#[test]
fn empty_secret_parameter_is_refused() {
    assert_eq!(
        parse_otpauth_uri("otpauth://hotp/a?secret=".to_string()).unwrap_err(),
        "No secret found in URI"
    );
}

#[test]
fn cleaning_twice_is_cleaning_once() {
    for u in [
        "otpauth://totp/a:b?secret=A&x=1&issuer=I",
        "x?foo",
        "x?",
        "no-query",
        "x?a=1&&secret&digits=6=7",
    ] {
        let once = clean_otpauth_uri(u);
        assert_eq!(clean_otpauth_uri(&once), once);
    }
}

#[test]
fn unknown_parameter_changes_nothing() {
    let u = "otpauth://hotp/ACME:me?secret=abc&counter=3";
    let more = format!("{}&{}={}", u, "codeDisplay", "%7Bpinned%7D");
    assert_eq!(clean_otpauth_uri(&more), clean_otpauth_uri(u));
    assert_eq!(
        fields(&parse_otpauth_uri(more).unwrap()),
        fields(&parse_otpauth_uri(u.to_string()).unwrap())
    );
}
