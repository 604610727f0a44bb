//! Allow-list entries: IP literals, CIDR blocks, hostnames.

use vz_backend::ip::IpAddr;
use vz_backend::ip_text::parse_ip;
use vz_backend::pattern::{
    normalize_hostname, normalize_ip, HostPattern, HostPatternError, IpCidr,
};

fn v4(octets: [u8; 4]) -> IpAddr {
    IpAddr::V4(u32::from_be_bytes(octets))
}

fn ip(text: &str) -> IpAddr {
    parse_ip(text).expect("an address literal")
}

fn cidr(entry: &str) -> IpCidr {
    match HostPattern::parse(entry).expect("valid CIDR") {
        HostPattern::Cidr(cidr) => cidr,
        other => panic!("expected Cidr, got {other:?}"),
    }
}

#[test]
fn ipv4_literal_parses_to_ip() {
    assert_eq!(
        HostPattern::parse("140.82.112.22"),
        Ok(HostPattern::Ip(v4([140, 82, 112, 22])))
    );
}

#[test]
fn ipv6_literal_parses_to_ip() {
    assert_eq!(
        HostPattern::parse("2606:50c0:8000::153"),
        Ok(HostPattern::Ip(IpAddr::V6(0x2606_50c0_8000_0000_0000_0000_0000_0153)))
    );
}

#[test]
fn ipv4_mapped_ipv6_is_rewritten_to_ipv4() {
    assert_eq!(
        HostPattern::parse("::ffff:140.82.112.22"),
        Ok(HostPattern::Ip(v4([140, 82, 112, 22])))
    );
}

#[test]
fn ipv4_cidr_parses() {
    let block = cidr("10.1.0.0/16");
    assert!(block.contains(v4([10, 1, 200, 3])));
    assert!(!block.contains(v4([10, 2, 0, 1])));
}

#[test]
fn ipv6_cidr_parses() {
    let block = cidr("2001:db8::/32");
    assert!(block.contains(ip("2001:db8:1::1")));
    assert!(!block.contains(ip("2001:db9::1")));
}

#[test]
fn cidr_with_nonzero_host_bits_matches_by_mask() {
    let block = cidr("10.0.0.5/8");
    assert!(block.contains(v4([10, 255, 0, 1])));
    assert!(!block.contains(v4([11, 0, 0, 1])));
}

#[test]
fn out_of_range_prefix_is_invalid() {
    assert_eq!(HostPattern::parse("10.0.0.0/33"), Err(HostPatternError::InvalidCidr));
    assert_eq!(HostPattern::parse("2001:db8::/129"), Err(HostPatternError::InvalidCidr));
    assert_eq!(HostPattern::parse("not-an-ip/24"), Err(HostPatternError::InvalidCidr));
}

#[test]
fn empty_and_whitespace_entries_are_invalid() {
    assert_eq!(HostPattern::parse(""), Err(HostPatternError::Empty));
    assert_eq!(HostPattern::parse("   "), Err(HostPatternError::Empty));
}

#[test]
fn anything_else_is_a_hostname_normalized_for_matching() {
    assert_eq!(
        HostPattern::parse("API.GitHub.COM."),
        Ok(HostPattern::Hostname("api.github.com".to_string()))
    );
    assert_eq!(
        HostPattern::parse("api.github.com"),
        Ok(HostPattern::Hostname("api.github.com".to_string()))
    );
}

#[test]
fn v6_zero_prefix_matches_everything_v6_only() {
    let block = cidr("::/0");
    assert!(block.contains(IpAddr::V6(1)));
    // Family-split: a v6 CIDR never matches a v4 destination.
    assert!(!block.contains(v4([1, 2, 3, 4])));
    assert!(!block.contains(ip("::ffff:1.2.3.4")));
}

#[test]
fn prefix_lengths_parse_like_numbers() {
    assert_eq!(cidr("10.0.0.0/08"), IpCidr { network: v4([10, 0, 0, 0]), prefix: 8 });
    assert_eq!(cidr("10.0.0.0/+8"), IpCidr { network: v4([10, 0, 0, 0]), prefix: 8 });
    assert_eq!(cidr("10.0.0.0/000000000032").prefix, 32);
    for bad in ["10.0.0.0/", "10.0.0.0/+", "10.0.0.0/-1", "10.0.0.0/ 8", "10.0.0.0/256", "10.0.0.0/8/8"] {
        assert_eq!(HostPattern::parse(bad), Err(HostPatternError::InvalidCidr), "{bad}");
    }
    // A mapped network counts as IPv4.
    assert_eq!(HostPattern::parse("::ffff:10.0.0.0/104"), Err(HostPatternError::InvalidCidr));
    assert_eq!(cidr("::ffff:10.0.0.0/8").network, v4([10, 0, 0, 0]));
}

#[test]
fn full_prefix_matches_one_address() {
    let block = cidr("192.0.2.7/32");
    assert!(block.contains(v4([192, 0, 2, 7])));
    assert!(!block.contains(v4([192, 0, 2, 6])));
    let block = cidr("fd00::1/128");
    assert!(block.contains(ip("fd00::1")));
    assert!(!block.contains(ip("fd00::2")));
    assert!(cidr("0.0.0.0/0").contains(v4([255, 255, 255, 255])));
}

#[test]
fn address_literals_follow_the_grammar() {
    assert_eq!(parse_ip("0.0.0.0"), Some(IpAddr::V4(0)));
    assert_eq!(parse_ip("255.255.255.255"), Some(IpAddr::V4(u32::MAX)));
    assert_eq!(parse_ip("::"), Some(IpAddr::V6(0)));
    assert_eq!(parse_ip("::1"), Some(IpAddr::V6(1)));
    assert_eq!(parse_ip("1::"), Some(IpAddr::V6(1 << 112)));
    assert_eq!(
        parse_ip("1:2:3:4:5:6:7:8"),
        Some(IpAddr::V6(0x0001_0002_0003_0004_0005_0006_0007_0008))
    );
    assert_eq!(
        parse_ip("1:2:3:4:5:6:7::"),
        Some(IpAddr::V6(0x0001_0002_0003_0004_0005_0006_0007_0000))
    );
    assert_eq!(
        parse_ip("1:2:3:4:5:6:1.2.3.4"),
        Some(IpAddr::V6(0x0001_0002_0003_0004_0005_0006_0102_0304))
    );
    assert_eq!(parse_ip("64:ff9b::192.0.2.33"), Some(IpAddr::V6(0x0064_ff9b_0000_0000_0000_0000_c000_0221)));
    assert_eq!(parse_ip("ABCD::ef01"), Some(IpAddr::V6((0xABCD << 112) | 0xef01)));
    for bad in [
        "", "1.2.3", "1.2.3.4.5", "01.2.3.4", "1.2.3.256", "1.2.3.1000", "1..3.4", " 1.2.3.4",
        ":", ":::", "1:2:3:4:5:6:7", "1:2:3:4:5:6:7:8:9", "1:2:3:4:5:6:7:8::", "1:2:3:4:5:6:7::8",
        "12345::", "g::", "1::2::3", ":1::2", "1::2:", "1:2:1.2.3.4", "1.2.3.4::", "::1.2.3.4:5",
        "1:2:3:4:5:6:7:1.2.3.4", "fe80::1%en0",
    ] {
        assert_eq!(parse_ip(bad), None, "{bad:?}");
    }
}

#[test]
fn normalization_has_exact_results() {
    assert_eq!(normalize_ip(ip("::ffff:1.2.3.4")), v4([1, 2, 3, 4]));
    assert_eq!(normalize_ip(ip("::fffe:1.2.3.4")), ip("::fffe:1.2.3.4"));
    assert_eq!(normalize_ip(v4([9, 9, 9, 9])), v4([9, 9, 9, 9]));
    assert_eq!(normalize_hostname("  Ex\u{c4}mple.COM.. "), "ex\u{c4}mple.com.");
    assert_eq!(normalize_hostname("\u{3000}a\u{a0}"), "a");
    assert_eq!(normalize_hostname("."), "");
    assert_eq!(normalize_hostname(""), "");
}

#[test]
fn case_space_and_one_dot_do_not_distinguish_names() {
    for name in ["Api.GitHub.com", " \tapi.github.com\n", "", " . ", "a..", "\u{c4}b"] {
        let form = normalize_hostname(name);
        assert_eq!(normalize_hostname(&name.to_ascii_uppercase()), form);
        assert_eq!(normalize_hostname(&format!(" {name} ")), form);
        let trimmed = name.trim();
        assert_eq!(normalize_hostname(&format!("{trimmed}.")), trimmed.to_ascii_lowercase());
        if !trimmed.ends_with('.') {
            assert_eq!(normalize_hostname(&format!("{trimmed}.")), form);
        }
        assert!(!form.chars().any(|c| c.is_ascii_uppercase()));
    }
    assert_eq!(normalize_hostname("a.."), "a.");
}

#[test]
fn pattern_errors_render_their_messages() {
    assert_eq!(HostPatternError::Empty.message(), "empty allowedHosts entry");
    assert_eq!(HostPatternError::InvalidCidr.message(), "malformed CIDR in allowedHosts entry");
}
