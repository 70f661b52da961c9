use ephemeral_pg::parse_first_endpoint;
use ephemeral_pg::Error;

#[test]
fn base_case() {
    let e = parse_first_endpoint("0.0.0.0:55837").unwrap();
    assert_eq!(e.port(), 55837);
    assert_eq!(e.host().as_str(), "0.0.0.0");
    assert!(!e.is_ipv6());
}

#[test]
fn ignore_whitespace() {
    let e = parse_first_endpoint("   0.0.0.0:55837    ").unwrap();
    assert_eq!(e.port(), 55837);
}

#[test]
fn works_with_ipv6() {
    let e = parse_first_endpoint("[::]:12345").unwrap();
    assert_eq!(e.port(), 12345);
    assert_eq!(e.host().as_str(), "::");
    assert!(e.is_ipv6());
}

#[test]
fn works_with_multiple_ips() {
    let e = parse_first_endpoint("0.0.0.0:12345 \n [::]:12345").unwrap();
    assert_eq!(e.port(), 12345);
}

#[test]
fn yields_first_of_multiple_ips() {
    let e = parse_first_endpoint("0.0.0.0:12345 \n [::]:54321").unwrap();
    assert_eq!(e.port(), 12345);
    assert!(!e.is_ipv6());
}

#[test]
fn empty_input_fails() {
    assert_eq!(parse_first_endpoint("").unwrap_err(), Error::PortParseFailure);
}

#[test]
fn unicode_whitespace_is_ignored() {
    let e = parse_first_endpoint("\u{00A0}\u{2003}0.0.0.0:55837\u{00A0}").unwrap();
    assert_eq!(e.port(), 55837);
}

#[test]
fn blank_input_fails() {
    assert_eq!(parse_first_endpoint(" \n\t  ").unwrap_err(), Error::PortParseFailure);
}

#[test]
fn no_parseable_token_fails() {
    let r = parse_first_endpoint("error: no container found\nsee the logs");
    assert_eq!(r.unwrap_err(), Error::PortParseFailure);
}

#[test]
fn malformed_tokens_are_skipped() {
    let e = parse_first_endpoint("garbage 1.2.3.4:99999 10.0.0.1:5432").unwrap();
    assert_eq!(e.port(), 5432);
    assert_eq!(e.host().as_str(), "10.0.0.1");
}

#[test]
fn octet_out_of_range_fails() {
    assert!(parse_first_endpoint("256.0.0.1:80").is_err());
    assert!(parse_first_endpoint("1.2.3:80").is_err());
    assert!(parse_first_endpoint("1.2.3.4.5:80").is_err());
}

#[test]
fn leading_zero_octet_fails() {
    assert!(parse_first_endpoint("01.2.3.4:80").is_err());
    assert!(parse_first_endpoint("0.0.0.0:80").is_ok());
}

#[test]
fn port_bounds() {
    assert_eq!(parse_first_endpoint("1.2.3.4:65535").unwrap().port(), 65535);
    assert!(parse_first_endpoint("1.2.3.4:65536").is_err());
    assert_eq!(parse_first_endpoint("1.2.3.4:0").unwrap().port(), 0);
    assert!(parse_first_endpoint("1.2.3.4:").is_err());
}

#[test]
fn ipv6_grammar() {
    assert!(parse_first_endpoint("[1:2:3:4:5:6:7:8]:80").is_ok());
    assert!(parse_first_endpoint("[1:2:3:4:5:6:7]:80").is_err());
    assert!(parse_first_endpoint("[fe80::1]:80").is_ok());
    assert!(parse_first_endpoint("[1::2::3]:80").is_err());
    assert!(parse_first_endpoint("[:::]:80").is_err());
    assert!(parse_first_endpoint("[12345::]:80").is_err());
    assert!(parse_first_endpoint("[beef::cafe]:80").is_ok());
    assert!(parse_first_endpoint("[gggg::1]:80").is_err());
    assert!(parse_first_endpoint("[::1:2:3:4:5:6:7]:80").is_ok());
    assert!(parse_first_endpoint("[1:2:3:4:5:6:7::]:80").is_ok());
    assert!(parse_first_endpoint("[1:2:3:4:5:6:7:8::]:80").is_err());
}

#[test]
fn bracket_without_port_fails() {
    assert!(parse_first_endpoint("[::]").is_err());
    assert!(parse_first_endpoint("[::]:").is_err());
    assert!(parse_first_endpoint("[::]x80").is_err());
}

#[test]
fn address_text_round_trip() {
    let e = parse_first_endpoint("0.0.0.0:55837").unwrap();
    assert_eq!(e.to_text().as_str(), "0.0.0.0:55837");
    let e6 = parse_first_endpoint("[::1]:8080").unwrap();
    assert_eq!(e6.to_text().as_str(), "[::1]:8080");
}
