//! The allowed-IP set.

use vz_backend::filter::{EgressFilter, MAX_DNS_TTL, MIN_DNS_TTL};
use vz_backend::ip::IpAddr;
use vz_backend::ip_text::parse_ip;
use vz_backend::pattern::HostPattern;

const SECOND: u64 = 1_000_000_000;
const NOW: u64 = 5_000 * SECOND;

fn filter(entries: &[&str]) -> EgressFilter {
    EgressFilter::new(entries.iter().map(|e| HostPattern::parse(e).unwrap()).collect())
}

fn ip(s: &str) -> IpAddr {
    parse_ip(s).unwrap()
}

#[test]
fn static_ip_literal_is_allowed_everything_else_denied() {
    let f = filter(&["140.82.112.22"]);
    assert!(f.allows_ip(ip("140.82.112.22"), NOW));
    assert!(!f.allows_ip(ip("140.82.112.23"), NOW));
    assert!(!f.allows_ip(ip("2606:50c0:8000::153"), NOW));
}

#[test]
fn cidr_membership_is_allowed() {
    let f = filter(&["10.1.0.0/16", "2001:db8::/32"]);
    assert!(f.allows_ip(ip("10.1.255.254"), NOW));
    assert!(!f.allows_ip(ip("10.2.0.1"), NOW));
    assert!(f.allows_ip(ip("2001:db8:ffff::1"), NOW));
    assert!(!f.allows_ip(ip("2001:db9::1"), NOW));
}

#[test]
fn ipv4_mapped_destination_is_normalized_before_lookup() {
    let f = filter(&["140.82.112.22"]);
    assert!(f.allows_ip(ip("::ffff:140.82.112.22"), NOW));
}

#[test]
fn hostname_pattern_alone_allows_nothing_until_dns_observation() {
    let f = filter(&["api.github.com"]);
    assert!(!f.allows_ip(ip("140.82.112.22"), NOW));
}

#[test]
fn dns_observation_for_matching_name_admits_ip_until_ttl_expiry() {
    let mut f = filter(&["api.github.com"]);
    assert!(f.observe_dns("api.github.com", ip("140.82.112.22"), 60 * SECOND, NOW));
    assert!(f.allows_ip(ip("140.82.112.22"), NOW));
    assert!(f.allows_ip(ip("140.82.112.22"), NOW + 59 * SECOND));
    assert!(!f.allows_ip(ip("140.82.112.22"), NOW + 61 * SECOND));
}

#[test]
fn expiry_is_exclusive() {
    let mut f = filter(&["api.github.com"]);
    f.observe_dns("api.github.com", ip("140.82.112.22"), 60 * SECOND, NOW);
    assert!(f.allows_ip(ip("140.82.112.22"), NOW + 60 * SECOND - 1));
    assert!(!f.allows_ip(ip("140.82.112.22"), NOW + 60 * SECOND));
}

#[test]
fn dns_observation_for_non_matching_name_is_refused_and_admits_nothing() {
    let mut f = filter(&["api.github.com"]);
    assert!(!f.observe_dns("evil.example.com", ip("6.6.6.6"), 60 * SECOND, NOW));
    assert!(!f.allows_ip(ip("6.6.6.6"), NOW));
}

#[test]
fn hostname_matching_is_case_and_trailing_dot_insensitive() {
    let mut f = filter(&["api.github.com"]);
    assert!(f.matches_hostname("API.GITHUB.COM."));
    assert!(f.matches_hostname("api.github.com"));
    assert!(!f.matches_hostname("api.github.com.evil.example"));
    assert!(!f.matches_hostname("sub.api.github.com"));
    assert!(f.observe_dns("API.GitHub.com.", ip("140.82.112.22"), 60 * SECOND, NOW));
    assert!(f.allows_ip(ip("140.82.112.22"), NOW));
}

#[test]
fn excessive_ttl_is_clamped_to_the_bound() {
    let mut f = filter(&["api.github.com"]);
    f.observe_dns("api.github.com", ip("140.82.112.22"), 86_400 * SECOND, NOW);
    assert!(f.allows_ip(ip("140.82.112.22"), NOW + MAX_DNS_TTL - SECOND));
    assert!(!f.allows_ip(ip("140.82.112.22"), NOW + MAX_DNS_TTL + SECOND));
}

#[test]
fn zero_ttl_still_covers_the_immediate_connect() {
    let mut f = filter(&["api.github.com"]);
    f.observe_dns("api.github.com", ip("140.82.112.22"), 0, NOW);
    assert!(f.allows_ip(ip("140.82.112.22"), NOW + MIN_DNS_TTL - SECOND / 1000));
    assert!(!f.allows_ip(ip("140.82.112.22"), NOW + MIN_DNS_TTL + SECOND));
}

#[test]
fn reobservation_refreshes_the_expiry() {
    let mut f = filter(&["api.github.com"]);
    f.observe_dns("api.github.com", ip("140.82.112.22"), 60 * SECOND, NOW);
    let later = NOW + 50 * SECOND;
    f.observe_dns("api.github.com", ip("140.82.112.22"), 60 * SECOND, later);
    assert!(f.allows_ip(ip("140.82.112.22"), NOW + 100 * SECOND));
    assert!(!f.allows_ip(ip("140.82.112.22"), NOW + 111 * SECOND));
}

#[test]
fn shorter_answer_does_not_retract_a_longer_one() {
    let mut f = filter(&["api.github.com"]);
    f.observe_dns("api.github.com", ip("140.82.112.22"), 200 * SECOND, NOW);
    f.observe_dns("api.github.com", ip("::ffff:140.82.112.22"), SECOND, NOW);
    assert!(f.allows_ip(ip("140.82.112.22"), NOW + 199 * SECOND));
}

#[test]
fn observations_of_other_addresses_keep_what_is_still_valid() {
    let mut f = filter(&["api.github.com"]);
    f.observe_dns("api.github.com", ip("1.1.1.1"), 10 * SECOND, NOW);
    f.observe_dns("api.github.com", ip("2.2.2.2"), 100 * SECOND, NOW);
    f.observe_dns("api.github.com", ip("3.3.3.3"), 100 * SECOND, NOW + 20 * SECOND);
    let then = NOW + 21 * SECOND;
    assert!(!f.allows_ip(ip("1.1.1.1"), then));
    assert!(f.allows_ip(ip("2.2.2.2"), then));
    assert!(f.allows_ip(ip("3.3.3.3"), then));
}

#[test]
fn static_and_dynamic_entries_compose() {
    let mut f = filter(&["10.0.0.0/8", "api.github.com"]);
    f.observe_dns("api.github.com", ip("140.82.112.22"), 60 * SECOND, NOW);
    assert!(f.allows_ip(ip("10.9.9.9"), NOW));
    assert!(f.allows_ip(ip("140.82.112.22"), NOW));
    assert!(!f.allows_ip(ip("8.8.8.8"), NOW));
}

#[test]
fn empty_filter_denies_everything() {
    let f = EgressFilter::new(Vec::new());
    assert!(!f.allows_ip(ip("8.8.8.8"), NOW));
    assert!(!f.matches_hostname("anything.example"));
}

#[test]
fn answers_at_the_end_of_the_clock_still_count() {
    let mut f = filter(&["api.github.com"]);
    assert!(f.observe_dns("api.github.com", ip("140.82.112.22"), SECOND, u64::MAX));
    assert!(f.allows_ip(ip("140.82.112.22"), u64::MAX));
    assert!(!f.observe_dns("sub.api.github.com", ip("140.82.112.23"), SECOND, u64::MAX));
    assert!(!f.allows_ip(ip("140.82.112.23"), u64::MAX));
}
