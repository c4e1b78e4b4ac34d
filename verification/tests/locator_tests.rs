//! Tests of the locator parser.

use safe_dns::errors::DnsError;
use safe_dns::locator::{default_service, parse};

#[test]
fn parse_locator_with_service() {
    let (service, long_name) = parse("safe:blog.example.com").unwrap();
    assert_eq!(service, "blog");
    assert_eq!(long_name, "example.com");
}

#[test]
fn parse_locator_without_service_gets_the_default() {
    let (service, long_name) = parse("safe:example.com").unwrap();
    assert_eq!(service, default_service());
    assert_eq!(service, "www");
    assert_eq!(long_name, "example.com");
}

#[test]
fn parse_rejects_malformed_locators() {
    for bad in [
        "safe:not-a-name",
        "safe:",
        "safe:.",
        "safe:a.",
        "safe:.a",
        "safe:a.b.c.d",
        "safe:.a.b",
        "safe:a.b.",
        "safe:a..b",
        "http:a.b",
        "",
        "a.b.c",
    ] {
        assert!(
            matches!(parse(bad), Err(DnsError::MalformedLocator)),
            "{}",
            bad
        );
    }
}

#[test]
fn parse_keeps_every_character_of_the_segments() {
    let (service, long_name) = parse("safe:möbel.läden.example").unwrap();
    assert_eq!(service, "möbel");
    assert_eq!(long_name, "läden.example");
}
