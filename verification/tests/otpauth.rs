use stip::otpauth::{ParseError, ParsedUrl, UrlParts};

const SECRET: &[u8] = b"\x32\x92\x44\x5F\x2F\xED\xD8\xCD\xFD\x84\x72\x19";

#[test]
fn lib_issuer_is_a_query_value() {
    let res = ParsedUrl::parse("otpauth://totp/Company%3Aexample%40company.com?secret=gkjeixzp5xmm37meoimq====&issuer=BigTech").unwrap();
    assert_eq!(res.label.as_str(), "Company:example@company.com");
    assert_eq!(res.issuer.as_str(), "BigTech");
    assert_eq!(
        res.secret.as_slice(),
        b"\x32\x92\x44\x5F\x2F\xED\xD8\xCD\xFD\x84\x72\x19"
    );
}

#[test]
fn lib_issuer_is_inferred_from_label() {
    let res = ParsedUrl::parse(
        "otpauth://totp/Company%3Aexample%40company.com?secret=gkjeixzp5xmm37meoimq====",
    )
    .unwrap();
    assert_eq!(res.label.as_str(), "Company:example@company.com");
    assert_eq!(res.issuer.as_str(), "Company");
    assert_eq!(
        res.secret.as_slice(),
        b"\x32\x92\x44\x5F\x2F\xED\xD8\xCD\xFD\x84\x72\x19"
    );
}

#[test]
fn lib_no_issuer_is_detected() {
    ParsedUrl::parse("otpauth://totp/example%40company.com?secret=gkjeixzp5xmm37meoimq====")
        .unwrap_err();
}

#[test]
fn lib_invalid_scheme() {
    assert_eq!(
        ParsedUrl::parse(
            "http://totp/Company%3Aexample%40company.com?secret=gkjeixzp5xmm37meoimq===="
        )
        .unwrap_err(),
        ParseError::InvalidScheme,
    );
}

#[test]
fn lib_invalid_domain() {
    assert_eq!(
        ParsedUrl::parse(
            "otpauth://example/Company%3Aexample%40company.com?secret=gkjeixzp5xmm37meoimq===="
        )
        .unwrap_err(),
        ParseError::InvalidDomain,
    );
}

#[test]
fn otpauth_issuer_is_a_query_value() {
    let res = ParsedUrl::parse("otpauth://totp/BigTech%3Aexample%40company.com?secret=gkjeixzp5xmm37meoimq====&issuer=BigTech&digits=10&period=35").unwrap();
    assert_eq!(res.account_name.as_str(), "example@company.com");
    assert_eq!(res.issuer.as_str(), "BigTech");
    assert_eq!(
        res.secret.as_slice(),
        b"\x32\x92\x44\x5F\x2F\xED\xD8\xCD\xFD\x84\x72\x19"
    );
    assert_eq!(res.digits, 10);
    assert_eq!(res.period, 35);
}

#[test]
fn otpauth_issuer_is_inferred_from_label() {
    let res = ParsedUrl::parse(
        "otpauth://totp/Company%3Aexample%40company.com?secret=gkjeixzp5xmm37meoimq====",
    )
    .unwrap();
    assert_eq!(res.account_name.as_str(), "example@company.com");
    assert_eq!(res.issuer.as_str(), "Company");
    assert_eq!(
        res.secret.as_slice(),
        b"\x32\x92\x44\x5F\x2F\xED\xD8\xCD\xFD\x84\x72\x19"
    );
}

#[test]
fn otpauth_no_issuer_is_detected() {
    ParsedUrl::parse("otpauth://totp/example%40company.com?secret=gkjeixzp5xmm37meoimq====")
        .unwrap_err();
}

#[test]
fn otpauth_invalid_scheme() {
    assert_eq!(
        ParsedUrl::parse(
            "http://totp/Company%3Aexample%40company.com?secret=gkjeixzp5xmm37meoimq===="
        )
        .unwrap_err(),
        ParseError::InvalidScheme,
    );
}

#[test]
fn otpauth_invalid_domain() {
    assert_eq!(
        ParsedUrl::parse(
            "otpauth://example/Company%3Aexample%40company.com?secret=gkjeixzp5xmm37meoimq===="
        )
        .unwrap_err(),
        ParseError::InvalidDomain,
    );
}

fn pairs(list: &[(&str, &str)]) -> Vec<(String, String)> {
    list.iter().map(|(name, value)| (name.to_string(), value.to_string())).collect()
}

#[test]
fn the_query_overrides_the_issuer_of_the_label() {
    let address = "otpauth://totp/Company%3Aexample%40company.com?secret=gkjeixzp5xmm37meoimq====&issuer=BigTech&digits=10&period=35";
    let res = ParsedUrl::parse(address).unwrap();
    assert_eq!(res.issuer, "BigTech");
    assert_eq!(res.account_name, "example@company.com");
    assert_eq!(res.label, "Company:example@company.com");
    assert_eq!(res.secret, SECRET);
    assert_eq!(res.digits, 10);
    assert_eq!(res.period, 35);
    assert_eq!(res.raw, address);
}

#[test]
fn defaults_are_six_digits_and_thirty_seconds() {
    let res = ParsedUrl::parse("otpauth://totp/Company:me?secret=gkjeixzp5xmm37meoimq====").unwrap();
    assert_eq!(res.digits, 6);
    assert_eq!(res.period, 30);
}

#[test]
fn a_label_without_issuer_fails_with_no_issuer() {
    assert_eq!(
        ParsedUrl::parse("otpauth://totp/example%40company.com?secret=gkjeixzp5xmm37meoimq====").unwrap_err(),
        ParseError::NoIssuer,
    );
    assert_eq!(ParsedUrl::parse("otpauth://totp/example").unwrap_err(), ParseError::NoIssuer);
}

#[test]
fn a_missing_or_broken_secret_fails_with_incomplete_query() {
    assert_eq!(ParsedUrl::parse("otpauth://totp/a:b?issuer=x").unwrap_err(), ParseError::IncompleteQuery);
    assert_eq!(ParsedUrl::parse("otpauth://totp/a:b").unwrap_err(), ParseError::IncompleteQuery);
    assert_eq!(ParsedUrl::parse("otpauth://totp/a:b?secret=a1").unwrap_err(), ParseError::IncompleteQuery);
    assert_eq!(ParsedUrl::parse("otpauth://totp/a:b?secret=ME+A").unwrap_err(), ParseError::IncompleteQuery);
    assert_eq!(ParsedUrl::parse("otpauth://totp/b?secret=a1").unwrap_err(), ParseError::IncompleteQuery);
}

#[test]
fn malformed_numbers_and_texts_fail_with_invalid_url() {
    assert_eq!(ParsedUrl::parse("not an address").unwrap_err(), ParseError::InvalidUrl);
    assert_eq!(ParsedUrl::parse("").unwrap_err(), ParseError::InvalidUrl);
    assert_eq!(ParsedUrl::parse("otpauth://totp/a:b?secret=ME&digits=six").unwrap_err(), ParseError::InvalidUrl);
    assert_eq!(ParsedUrl::parse("otpauth://totp/a:b?secret=ME&digits=").unwrap_err(), ParseError::InvalidUrl);
    assert_eq!(ParsedUrl::parse("otpauth://totp/a:b?secret=ME&digits=-1").unwrap_err(), ParseError::InvalidUrl);
    assert_eq!(ParsedUrl::parse("otpauth://totp/a:b?secret=ME&period=1.5").unwrap_err(), ParseError::InvalidUrl);
    assert_eq!(
        ParsedUrl::parse("otpauth://totp/a:b?secret=ME&period=18446744073709551616").unwrap_err(),
        ParseError::InvalidUrl,
    );
    assert_eq!(ParsedUrl::parse("otpauth://totp/a%FF:b?secret=ME").unwrap_err(), ParseError::InvalidUrl);
}

#[test]
fn the_first_failing_pair_names_the_error() {
    assert_eq!(ParsedUrl::parse("otpauth://totp/a:b?digits=x&secret=a1").unwrap_err(), ParseError::InvalidUrl);
    assert_eq!(ParsedUrl::parse("otpauth://totp/a:b?secret=a1&digits=x").unwrap_err(), ParseError::IncompleteQuery);
    assert_eq!(ParsedUrl::parse("otpauth://totp/b?digits=x").unwrap_err(), ParseError::InvalidUrl);
}

#[test]
fn later_pairs_override_earlier_ones() {
    let res = ParsedUrl::parse("otpauth://totp/a:b?secret=ME&issuer=x&digits=7&secret=MI&issuer=y&digits=8&period=60&period=90&other=1").unwrap();
    assert_eq!(res.secret, vec![0x62]);
    assert_eq!(res.issuer, "y");
    assert_eq!(res.digits, 8);
    assert_eq!(res.period, 90);
}

#[test]
fn numbers_are_read_as_the_standard_library_reads_them() {
    for text in ["0", "00", "+0", "1", "7", "007", "+8", "++8", "+", "", " 8", "8 ", "-0", "１", "18446744073709551615", "18446744073709551616", "99999999999999999999999", "0x10"] {
        let address = format!("otpauth://totp/a:b?secret=ME&period={}", urlencoding::encode(text));
        let expected = text.parse::<u64>().ok().filter(|period| *period > 0);
        assert_eq!(ParsedUrl::parse(&address).ok().map(|res| res.period), expected, "period {:?}", text);
        let address = format!("otpauth://totp/a:b?secret=ME&digits={}", urlencoding::encode(text));
        let expected = text.parse::<usize>().ok().filter(|digits| *digits > 0);
        assert_eq!(ParsedUrl::parse(&address).ok().map(|res| res.digits), expected, "digits {:?}", text);
    }
}

#[test]
fn the_label_is_split_at_its_first_colon() {
    let res = ParsedUrl::from_label("a:b:c", &pairs(&[("secret", "ME")]), "raw").unwrap();
    assert_eq!((res.issuer.as_str(), res.account_name.as_str()), ("a", "b:c"));
    assert_eq!(res.label, "a:b:c");
    assert_eq!(res.raw, "raw");
    assert_eq!(ParsedUrl::from_label(":b", &pairs(&[("secret", "ME")]), "").unwrap_err(), ParseError::NoIssuer);
    let res = ParsedUrl::from_label(":b", &pairs(&[("secret", "ME"), ("issuer", "x")]), "").unwrap();
    assert_eq!((res.issuer.as_str(), res.account_name.as_str()), ("x", "b"));
    let res = ParsedUrl::from_label("a:", &pairs(&[("secret", "ME")]), "").unwrap();
    assert_eq!((res.issuer.as_str(), res.account_name.as_str()), ("a", ""));
    let res = ParsedUrl::from_label("höher:ü", &pairs(&[("secret", "ME")]), "").unwrap();
    assert_eq!((res.issuer.as_str(), res.account_name.as_str()), ("höher", "ü"));
    let res = ParsedUrl::from_label("plain", &pairs(&[("issuer", "x"), ("secret", "ME")]), "").unwrap();
    assert_eq!((res.issuer.as_str(), res.account_name.as_str()), ("x", "plain"));
    assert_eq!(ParsedUrl::from_label("plain", &pairs(&[("secret", "ME")]), "").unwrap_err(), ParseError::NoIssuer);
    assert_eq!(ParsedUrl::from_label("a:b", &pairs(&[]), "").unwrap_err(), ParseError::IncompleteQuery);
    assert_eq!(ParsedUrl::from_label("plain", &pairs(&[]), "").unwrap_err(), ParseError::NoIssuer);
}

#[test]
fn the_parts_of_an_address_are_checked_in_order() {
    let parts = |scheme: &str, domain: Option<&str>, path: &str, query: Option<&str>| UrlParts {
        scheme: scheme.to_string(),
        domain: domain.map(str::to_string),
        path: path.to_string(),
        query: query.map(str::to_string),
    };
    let res = ParsedUrl::from_parts(&parts("otpauth", Some("totp"), "///a%3Ab", Some("secret=ME&&issuer=c+d")), "raw").unwrap();
    assert_eq!((res.issuer.as_str(), res.account_name.as_str(), res.label.as_str()), ("c d", "b", "a:b"));
    assert_eq!(res.secret, vec![0x61]);
    assert_eq!(ParsedUrl::from_parts(&parts("http", None, "%FF", None), "").unwrap_err(), ParseError::InvalidScheme);
    assert_eq!(ParsedUrl::from_parts(&parts("otpauth", None, "%FF", None), "").unwrap_err(), ParseError::InvalidDomain);
    assert_eq!(ParsedUrl::from_parts(&parts("otpauth", Some("hotp"), "%FF", None), "").unwrap_err(), ParseError::InvalidDomain);
    assert_eq!(ParsedUrl::from_parts(&parts("otpauth", Some("totp"), "%FF", None), "").unwrap_err(), ParseError::InvalidUrl);
    assert_eq!(ParsedUrl::from_parts(&parts("otpauth", Some("totp"), "/a:b", None), "").unwrap_err(), ParseError::IncompleteQuery);
    assert_eq!(ParsedUrl::from_parts(&parts("otpauth", Some("totp"), "/a:b", Some("")), "").unwrap_err(), ParseError::IncompleteQuery);
}

#[test]
fn an_address_with_an_ip_address_for_host_is_refused() {
    assert_eq!(ParsedUrl::parse("otpauth://[::1]/a:b?secret=ME").unwrap_err(), ParseError::InvalidDomain);
    assert_eq!(ParsedUrl::parse("otpauth:/a:b?secret=ME").unwrap_err(), ParseError::InvalidDomain);
    assert_eq!(ParsedUrl::parse("otpauth://hotp/a:b?secret=ME").unwrap_err(), ParseError::InvalidDomain);
    assert_eq!(ParsedUrl::parse("OTPAUTH://totp/a:b?secret=ME").unwrap().issuer, "a");
}

#[test]
fn a_credential_has_an_issuer_a_secret_and_numbers_above_zero() {
    assert_eq!(ParsedUrl::parse("otpauth://totp/a:b?secret=").unwrap_err(), ParseError::IncompleteQuery);
    assert_eq!(ParsedUrl::parse("otpauth://totp/a:b?secret=====").unwrap_err(), ParseError::IncompleteQuery);
    assert_eq!(ParsedUrl::parse("otpauth://totp/a:b?secret=M").unwrap_err(), ParseError::IncompleteQuery);
    assert_eq!(ParsedUrl::parse("otpauth://totp/a:b?secret=ME&issuer=").unwrap_err(), ParseError::NoIssuer);
    assert_eq!(ParsedUrl::parse("otpauth://totp/:b?secret=ME").unwrap_err(), ParseError::NoIssuer);
    assert_eq!(ParsedUrl::parse("otpauth://totp/:b?secret=&issuer=").unwrap_err(), ParseError::NoIssuer);
    assert_eq!(ParsedUrl::parse("otpauth://totp/a:b?secret=ME&digits=0").unwrap_err(), ParseError::InvalidUrl);
    assert_eq!(ParsedUrl::parse("otpauth://totp/a:b?secret=ME&period=0").unwrap_err(), ParseError::InvalidUrl);
    assert_eq!(ParsedUrl::parse("otpauth://totp/a:b?secret=ME&period=000").unwrap_err(), ParseError::InvalidUrl);
    let res = ParsedUrl::parse("otpauth://totp/a:b?secret=ME&period=1&digits=1").unwrap();
    assert_eq!((res.period, res.digits), (1, 1));
    let res = ParsedUrl::parse("otpauth://totp/a:?secret=ME").unwrap();
    assert_eq!((res.issuer.as_str(), res.account_name.as_str()), ("a", ""));
}
