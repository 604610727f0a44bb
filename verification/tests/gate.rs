//! Egress decisions on real frames: what the guest sends, and what becomes of
//! it. Loopback stands in for the internet, so most tests relay host-local
//! destinations.

use vz_backend::dns::parse_query;
use vz_backend::filter::EgressFilter;
use vz_backend::flows::FlowKey;
use vz_backend::gate::{DnsVerdict, FrameVerdict, GateState};
use vz_backend::guard::{is_cloud_metadata, is_host_local, GateConfig};
use vz_backend::ip::IpAddr;
use vz_backend::ip_text::parse_ip;
use vz_backend::pattern::HostPattern;
use vz_backend::relay::{
    connect_step, ping_reply, read_budget, read_step, strip_ip_header, ConnectOutcome,
    ConnectStep, GuestStep, IoOutcome, Relay, StreamStep,
};
use vz_backend::wire::{internet_checksum, peek_icmp_echo_request};

const SECOND: u64 = 1_000_000_000;
const NOW: u64 = 1_000 * SECOND;
const GUEST: [u8; 4] = [10, 0, 2, 15];
const LOOPBACK: [u8; 4] = [127, 0, 0, 1];

fn v4(octets: [u8; 4]) -> IpAddr {
    IpAddr::V4(u32::from_be_bytes(octets))
}

fn ip(text: &str) -> IpAddr {
    parse_ip(text).expect("an address literal")
}

fn filter(entries: &[&str]) -> EgressFilter {
    EgressFilter::new(entries.iter().map(|e| HostPattern::parse(e).unwrap()).collect())
}

fn relaying() -> GateConfig {
    GateConfig { relay_host_local: true, ..GateConfig::default() }
}

fn start(entries: &[&str]) -> GateState {
    GateState::new(relaying(), filter(entries), Vec::new())
}

fn ethernet(ethertype: [u8; 2]) -> Vec<u8> {
    let mut frame = vec![0x02, 0, 0, 0, 0, 0x02, 0x02, 0, 0, 0, 0, 0x15];
    frame.extend_from_slice(&ethertype);
    frame
}

fn ipv4_frame(protocol: u8, dst: [u8; 4], payload: &[u8]) -> Vec<u8> {
    let mut frame = ethernet([0x08, 0x00]);
    let total = 20 + payload.len() as u16;
    frame.extend_from_slice(&[0x45, 0, (total >> 8) as u8, total as u8, 0, 0, 0x40, 0, 64, protocol, 0, 0]);
    frame.extend_from_slice(&GUEST);
    frame.extend_from_slice(&dst);
    frame.extend_from_slice(payload);
    frame
}

fn syn_payload(src_port: u16, dst_port: u16) -> Vec<u8> {
    let mut tcp = Vec::new();
    tcp.extend_from_slice(&src_port.to_be_bytes());
    tcp.extend_from_slice(&dst_port.to_be_bytes());
    tcp.extend_from_slice(&[0, 0, 0x10, 0, 0, 0, 0, 0, 0x50, 0x02, 0x20, 0, 0, 0, 0, 0]);
    tcp
}

fn syn(dst: [u8; 4], src_port: u16, dst_port: u16) -> Vec<u8> {
    ipv4_frame(6, dst, &syn_payload(src_port, dst_port))
}

fn syn6(dst: &str, src_port: u16, dst_port: u16) -> Vec<u8> {
    let IpAddr::V6(bits) = ip(dst) else { panic!("not an IPv6 literal") };
    let IpAddr::V6(guest) = ip("fd00:6d78:63::15") else { panic!("not an IPv6 literal") };
    let mut frame = ethernet([0x86, 0xDD]);
    frame.extend_from_slice(&[0x60, 0, 0, 0, 0, 20, 6, 64]);
    frame.extend_from_slice(&guest.to_be_bytes());
    frame.extend_from_slice(&bits.to_be_bytes());
    frame.extend_from_slice(&syn_payload(src_port, dst_port));
    frame
}

fn udp(dst: [u8; 4], src_port: u16, dst_port: u16, payload: &[u8]) -> Vec<u8> {
    let mut datagram = Vec::new();
    datagram.extend_from_slice(&src_port.to_be_bytes());
    datagram.extend_from_slice(&dst_port.to_be_bytes());
    datagram.extend_from_slice(&(8 + payload.len() as u16).to_be_bytes());
    datagram.extend_from_slice(&[0, 0]);
    datagram.extend_from_slice(payload);
    ipv4_frame(17, dst, &datagram)
}

fn echo_request_frame(dst: [u8; 4], id: u16, seq: u16, payload: &[u8]) -> Vec<u8> {
    let mut icmp = vec![8, 0, 0, 0];
    icmp.extend_from_slice(&id.to_be_bytes());
    icmp.extend_from_slice(&seq.to_be_bytes());
    icmp.extend_from_slice(payload);
    ipv4_frame(1, dst, &icmp)
}

fn dns_packet(name: &str) -> Vec<u8> {
    let mut query = vec![0x12, 0x34, 0x01, 0x00, 0, 1, 0, 0, 0, 0, 0, 0];
    for label in name.split('.') {
        query.push(label.len() as u8);
        query.extend_from_slice(label.as_bytes());
    }
    query.push(0);
    query.extend_from_slice(&1u16.to_be_bytes());
    query.extend_from_slice(&1u16.to_be_bytes());
    query
}

/// A DNS exchange; returns the response code and the A-record count.
fn resolve(gate: &mut GateState, name: &str, ips: &[IpAddr], now: u64) -> (u8, u16) {
    let response = match gate.on_dns_packet(&dns_packet(name)) {
        DnsVerdict::Resolve(query) => gate.on_dns_resolved(&query, ips, now),
        DnsVerdict::Refuse(refusal) => refusal,
        other => panic!("no answer: {other:?}"),
    };
    (response[3] & 0x0f, u16::from_be_bytes([response[6], response[7]]))
}

fn opens_tcp(verdict: &FrameVerdict) -> bool {
    matches!(verdict, FrameVerdict::OpenTcp(_))
}

#[test]
fn denied_destination_is_refused_with_a_prompt_rst() {
    let mut gate = start(&[]);
    match gate.on_frame(&syn(LOOPBACK, 49000, 65_000), NOW) {
        FrameVerdict::Reset(rst) => {
            assert_eq!(&rst[26..30], &LOOPBACK);
            assert_eq!(rst[34 + 13], 0x14);
            assert_eq!(internet_checksum(&rst[14..34]), 0);
        }
        other => panic!("empty filter must deny the connect: {other:?}"),
    }
}

#[test]
fn statically_allowed_ip_relays_bytes_to_a_real_server() {
    let mut gate = start(&["127.0.0.1"]);
    let frame = syn(LOOPBACK, 49500, 4321);
    match gate.on_frame(&frame, NOW) {
        FrameVerdict::OpenTcp(key) => assert_eq!(
            key,
            FlowKey { guest_port: 49500, dst_ip: v4(LOOPBACK), dst_port: 4321 }
        ),
        other => panic!("allowed connect must open: {other:?}"),
    }
    // The retransmitted SYN belongs to the flow that is already open.
    assert!(matches!(gate.on_frame(&frame, NOW), FrameVerdict::Pass));

    let mut relay = Relay::new();
    assert_eq!(relay.guest_step(true), GuestStep::Pull);
    assert!(relay.pulled(b"through the wire".to_vec()));
    assert_eq!(relay.guest_step(true), GuestStep::Write);
    assert_eq!(relay.wrote(IoOutcome::Moved(8)), StreamStep::Again);
    assert_eq!(relay.pending, b"the wire");
    assert_eq!(relay.wrote(IoOutcome::WouldBlock), StreamStep::Stop);
    assert_eq!(relay.pending, b"the wire");
    assert_eq!(relay.wrote(IoOutcome::Moved(8)), StreamStep::Again);
    assert!(relay.finished(false, false));
}

#[test]
fn dns_for_allowed_name_populates_the_filter_and_enables_connect() {
    let mut gate = start(&["echo.test"]);
    assert!(!opens_tcp(&gate.on_frame(&syn(LOOPBACK, 49001, 80), NOW)));
    assert_eq!(resolve(&mut gate, "echo.test", &[v4(LOOPBACK)], NOW), (0, 1));
    assert!(opens_tcp(&gate.on_frame(&syn(LOOPBACK, 49001, 80), NOW + 59 * SECOND)));
    assert!(!opens_tcp(&gate.on_frame(&syn(LOOPBACK, 49002, 80), NOW + 61 * SECOND)));
}

#[test]
fn dns_for_non_allowed_name_is_refused_and_grants_nothing() {
    let mut gate = start(&["echo.test"]);
    assert_eq!(resolve(&mut gate, "evil.test", &[v4(LOOPBACK)], NOW), (5, 0));
    assert!(matches!(
        gate.on_frame(&syn(LOOPBACK, 49001, 65_001), NOW),
        FrameVerdict::Reset(_)
    ));
}

#[test]
fn udp_to_allowed_ip_relays_datagrams_both_ways() {
    let mut gate = start(&["127.0.0.1"]);
    let frame = udp(LOOPBACK, 44444, 5000, b"udp through the wire");
    match gate.on_frame(&frame, NOW) {
        FrameVerdict::OpenUdp(info) => {
            assert_eq!(info.src_ip, v4(GUEST));
            assert_eq!((info.src_port, info.dst_port), (44444, 5000));
        }
        other => panic!("allowed datagram must open a flow: {other:?}"),
    }
    assert!(matches!(gate.on_frame(&frame, NOW), FrameVerdict::Pass));
}

#[test]
fn udp_to_denied_ip_is_dropped_silently() {
    let mut gate = start(&[]);
    let frame = udp(LOOPBACK, 44444, 5000, b"should vanish");
    assert!(matches!(gate.on_frame(&frame, NOW), FrameVerdict::Drop));
}

#[test]
fn dns_populated_ip_is_usable_for_udp_too() {
    let mut gate = start(&["echo.test"]);
    assert_eq!(resolve(&mut gate, "echo.test", &[v4(LOOPBACK)], NOW).0, 0);
    let frame = udp(LOOPBACK, 44444, 5000, b"resolved then datagrammed");
    assert!(matches!(gate.on_frame(&frame, NOW), FrameVerdict::OpenUdp(_)));
}

#[test]
fn udp_flow_survives_idle_expiry_by_renating() {
    let config = GateConfig { udp_idle: SECOND / 1000 * 150, ..relaying() };
    let mut gate = GateState::new(config, filter(&["127.0.0.1"]), Vec::new());
    let frame = udp(LOOPBACK, 44444, 5000, b"one");
    let key = FlowKey { guest_port: 44444, dst_ip: v4(LOOPBACK), dst_port: 5000 };
    assert!(matches!(gate.on_frame(&frame, NOW), FrameVerdict::OpenUdp(_)));
    assert!(gate.expire_udp(NOW + SECOND / 1000 * 150).is_empty(), "idle, but not too long");
    gate.udp_moved(key, NOW + SECOND / 10);
    assert!(gate.expire_udp(NOW + SECOND / 1000 * 200).is_empty(), "activity keeps it");
    assert_eq!(gate.expire_udp(NOW + SECOND / 1000 * 400), vec![key]);
    assert!(matches!(gate.on_frame(&frame, NOW + SECOND), FrameVerdict::OpenUdp(_)));
}

#[test]
fn ping_to_allowed_ip_relays_with_the_guest_id_restored() {
    let mut gate = start(&["127.0.0.1"]);
    let frame = echo_request_frame(LOOPBACK, 0xBEEF, 9, b"relayed ping");
    let (echo, packet) = match gate.on_frame(&frame, NOW) {
        FrameVerdict::Ping { echo, open, packet } => {
            assert!(open, "the first ping opens a socket");
            (echo, packet)
        }
        other => panic!("allowed ping must be relayed: {other:?}"),
    };
    assert_eq!(&packet[..2], &[8, 0]);
    assert_eq!(internet_checksum(&packet), 0);
    assert!(matches!(
        gate.on_frame(&frame, NOW),
        FrameVerdict::Ping { open: false, .. }
    ));

    // The kernel rewrote the id; the guest sees its own.
    let message = [&[0u8, 0, 0xAA, 0xAA, 0x11, 0x22, 0, 9], &b"relayed ping"[..]].concat();
    let reply = ping_reply(&frame[..14], &echo, &message).expect("an echo reply");
    let icmp = &reply[34..];
    assert_eq!(icmp[0], 0);
    assert_eq!(u16::from_be_bytes([icmp[4], icmp[5]]), 0xBEEF, "guest id must be restored");
    assert_eq!(u16::from_be_bytes([icmp[6], icmp[7]]), 9);
    assert_eq!(&icmp[8..], b"relayed ping");
    assert_eq!(internet_checksum(icmp), 0);
}

#[test]
fn ping_to_denied_ip_is_dropped() {
    let mut gate = start(&[]);
    let frame = echo_request_frame(LOOPBACK, 1, 1, b"nope");
    assert!(matches!(gate.on_frame(&frame, NOW), FrameVerdict::Drop));
}

#[test]
fn garbage_frames_do_not_kill_the_gate() {
    let mut gate = start(&["127.0.0.1"]);
    for frame in [vec![], vec![0xff; 9], (0..=255u8).collect::<Vec<_>>()] {
        assert!(matches!(gate.on_frame(&frame, NOW), FrameVerdict::Pass));
    }
    assert!(opens_tcp(&gate.on_frame(&syn(LOOPBACK, 49500, 80), NOW)));
}

#[test]
fn guest_handshake_completes_while_the_upstream_connect_pends() {
    let mut gate = start(&["192.0.2.9"]);
    assert!(opens_tcp(&gate.on_frame(&syn([192, 0, 2, 9], 49444, 4444), NOW)));
    assert_eq!(connect_step(ConnectOutcome::Pending), ConnectStep::Wait);
    assert_eq!(connect_step(ConnectOutcome::Connected), ConnectStep::Relay);
    assert_eq!(connect_step(ConnectOutcome::Failed), ConnectStep::Abort);
    assert_eq!(connect_step(ConnectOutcome::Lost), ConnectStep::Abort);
}

#[test]
fn udp_flow_table_cap_drops_excess_flows() {
    let config = GateConfig { max_udp_flows: 2, ..relaying() };
    let mut gate = GateState::new(config, filter(&["127.0.0.1"]), Vec::new());
    assert!(matches!(gate.on_frame(&udp(LOOPBACK, 1, 9, b""), NOW), FrameVerdict::OpenUdp(_)));
    assert!(matches!(gate.on_frame(&udp(LOOPBACK, 2, 9, b""), NOW), FrameVerdict::OpenUdp(_)));
    assert!(matches!(gate.on_frame(&udp(LOOPBACK, 3, 9, b""), NOW), FrameVerdict::Drop));
    assert!(matches!(gate.on_frame(&udp(LOOPBACK, 1, 9, b""), NOW), FrameVerdict::Pass));
    // A closed flow makes room again.
    gate.udp_closed(FlowKey { guest_port: 1, dst_ip: v4(LOOPBACK), dst_port: 9 });
    assert!(matches!(gate.on_frame(&udp(LOOPBACK, 3, 9, b""), NOW), FrameVerdict::OpenUdp(_)));
}

#[test]
fn tcp_ping_and_dns_caps_hold_too() {
    let config = GateConfig {
        max_tcp_flows: 1,
        max_icmp_flows: 1,
        max_inflight_dns: 1,
        ..relaying()
    };
    let mut gate = GateState::new(config, filter(&["127.0.0.1", "echo.test"]), Vec::new());
    assert!(opens_tcp(&gate.on_frame(&syn(LOOPBACK, 1, 80), NOW)));
    assert!(matches!(gate.on_frame(&syn(LOOPBACK, 2, 80), NOW), FrameVerdict::Drop));
    gate.tcp_closed(FlowKey { guest_port: 1, dst_ip: v4(LOOPBACK), dst_port: 80 });
    assert!(opens_tcp(&gate.on_frame(&syn(LOOPBACK, 2, 80), NOW)));

    let first = echo_request_frame(LOOPBACK, 1, 1, b"");
    assert!(matches!(gate.on_frame(&first, NOW), FrameVerdict::Ping { open: true, .. }));
    let second = echo_request_frame(LOOPBACK, 2, 1, b"");
    assert!(matches!(gate.on_frame(&second, NOW), FrameVerdict::Drop));
    let key = FlowKey { guest_port: 1, dst_ip: v4(LOOPBACK), dst_port: 0 };
    gate.ping_moved(key, NOW + SECOND);
    assert!(gate.expire_pings(NOW + 31 * SECOND).is_empty());
    assert_eq!(gate.expire_pings(NOW + 31 * SECOND + 1), vec![key]);
    assert!(matches!(gate.on_frame(&second, NOW), FrameVerdict::Ping { open: true, .. }));
    gate.ping_closed(FlowKey { guest_port: 2, dst_ip: v4(LOOPBACK), dst_port: 0 });
    assert!(matches!(gate.on_frame(&first, NOW), FrameVerdict::Ping { open: true, .. }));

    let DnsVerdict::Resolve(query) = gate.on_dns_packet(&dns_packet("echo.test")) else {
        panic!("the first query resolves");
    };
    assert!(matches!(gate.on_dns_packet(&dns_packet("echo.test")), DnsVerdict::Busy));
    gate.on_dns_resolved(&query, &[], NOW);
    assert!(matches!(gate.on_dns_packet(&dns_packet("echo.test")), DnsVerdict::Resolve(_)));
}

#[test]
fn loopback_is_refused_even_when_allow_listed() {
    let mut gate = GateState::new(GateConfig::default(), filter(&["127.0.0.0/8"]), Vec::new());
    assert!(matches!(gate.on_frame(&syn(LOOPBACK, 1, 80), NOW), FrameVerdict::Reset(_)));
    assert!(matches!(gate.on_frame(&udp(LOOPBACK, 1, 80, b""), NOW), FrameVerdict::Drop));
    let ping = echo_request_frame(LOOPBACK, 1, 1, b"");
    assert!(matches!(gate.on_frame(&ping, NOW), FrameVerdict::Drop));
}

#[test]
fn cloud_metadata_is_refused_even_in_relay_mode() {
    let entries = ["169.254.169.254", "100.100.100.200", "fd00::/8"];
    let mut gate = start(&entries);
    for dst in [[169, 254, 169, 254], [100, 100, 100, 200]] {
        assert!(matches!(gate.on_frame(&syn(dst, 1, 80), NOW), FrameVerdict::Reset(_)));
    }
    assert!(matches!(
        gate.on_frame(&syn6("fd00:ec2::254", 1, 80), NOW),
        FrameVerdict::Reset(_)
    ));
    assert!(opens_tcp(&gate.on_frame(&syn6("fd00:ec2::255", 1, 80), NOW)));
    assert!(!opens_tcp(&gate.on_frame(&syn(LOOPBACK, 1, 80), NOW)), "not on the list");
}

#[test]
fn own_addresses_are_never_relayed() {
    let mut gate = start(&["10.0.0.0/8", "fd00::/8"]);
    for host in [2u8, 3, 15] {
        let dst = [10, 0, 2, host];
        assert!(matches!(gate.on_frame(&syn(dst, 1, 80), NOW), FrameVerdict::Reset(_)));
        assert!(matches!(gate.on_frame(&udp(dst, 1, 80, b""), NOW), FrameVerdict::Drop));
    }
    assert!(matches!(
        gate.on_frame(&syn6("fd00:6d78:63::2", 1, 80), NOW),
        FrameVerdict::Reset(_)
    ));
    // DNS to the DNS address reaches the stack.
    assert!(matches!(gate.on_frame(&udp([10, 0, 2, 3], 1, 53, b""), NOW), FrameVerdict::Pass));
    assert!(matches!(gate.on_frame(&udp([10, 0, 2, 2], 1, 53, b""), NOW), FrameVerdict::Drop));
    assert!(opens_tcp(&gate.on_frame(&syn([10, 0, 3, 1], 1, 80), NOW)));
}

#[test]
fn host_interface_addresses_are_refused() {
    let host = vec![v4([192, 168, 7, 7]), ip("::ffff:192.168.7.8")];
    let mut gate = GateState::new(GateConfig::default(), filter(&["192.168.0.0/16"]), host);
    assert!(!gate.may_relay(v4([192, 168, 7, 7])));
    assert!(!gate.may_relay(v4([192, 168, 7, 8])));
    assert!(gate.may_relay(v4([192, 168, 7, 9])));
    assert!(matches!(gate.on_frame(&syn([192, 168, 7, 7], 1, 80), NOW), FrameVerdict::Reset(_)));
    assert!(opens_tcp(&gate.on_frame(&syn([192, 168, 7, 9], 1, 80), NOW)));
}

#[test]
fn poisoned_allow_listed_name_resolving_to_metadata_is_filtered_at_dns() {
    let mut gate = GateState::new(GateConfig::default(), filter(&["good.test"]), Vec::new());
    let ips = [v4([169, 254, 169, 254]), v4([93, 184, 216, 34]), v4(LOOPBACK)];
    assert_eq!(resolve(&mut gate, "good.test", &ips, NOW), (0, 1));
    assert!(opens_tcp(&gate.on_frame(&syn([93, 184, 216, 34], 1, 80), NOW)));
    assert!(matches!(
        gate.on_frame(&syn([169, 254, 169, 254], 1, 80), NOW),
        FrameVerdict::Reset(_)
    ));
}

#[test]
fn host_local_classification() {
    for local in [
        "127.0.0.1", "127.255.255.255", "169.254.0.1", "0.0.0.0", "224.0.0.1", "239.255.255.255",
        "255.255.255.255", "::1", "::", "fe80::1", "febf::1", "ff02::1", "::ffff:127.0.0.1",
    ] {
        assert!(is_host_local(ip(local)), "{local}");
    }
    for routable in [
        "10.0.0.1", "192.168.1.1", "172.16.0.1", "8.8.8.8", "0.0.0.1", "240.0.0.1", "fd00::1",
        "fec0::1", "2001:db8::1", "126.255.255.255", "128.0.0.0", "169.253.255.255",
    ] {
        assert!(!is_host_local(ip(routable)), "{routable}");
    }
    assert!(is_cloud_metadata(ip("::ffff:169.254.169.254")));
    assert!(!is_cloud_metadata(ip("169.254.169.253")));
    let config = GateConfig::default();
    assert!(config.is_relayable(ip("10.1.2.3")));
    assert!(!config.is_relayable(ip("127.0.0.1")));
    assert!(relaying().is_relayable(ip("127.0.0.1")));
}

#[test]
fn default_configuration_mirrors_the_guest() {
    let config = GateConfig::default();
    assert_eq!(IpAddr::V4(config.gateway_ip), ip("10.0.2.2"));
    assert_eq!(IpAddr::V4(config.dns_ip), ip("10.0.2.3"));
    assert_eq!(IpAddr::V4(config.guest_ip), ip("10.0.2.15"));
    assert_eq!(IpAddr::V6(config.gateway_ip6), ip("fd00:6d78:63::2"));
    assert_eq!(IpAddr::V6(config.dns_ip6), ip("fd00:6d78:63::3"));
    assert_eq!(IpAddr::V6(config.guest_ip6), ip("fd00:6d78:63::15"));
    assert_eq!((config.prefix_len, config.prefix_len6), (24, 64));
    assert_eq!(config.udp_idle, 30 * SECOND);
    assert_eq!(
        (
            config.max_tcp_flows,
            config.max_udp_flows,
            config.max_icmp_flows,
            config.max_inflight_dns
        ),
        (512, 512, 128, 64)
    );
    assert!(!config.relay_host_local);
}

#[test]
fn v6_pings_are_relayed_without_a_checksum() {
    let IpAddr::V6(bits) = ip("2001:db8::9") else { panic!("not an IPv6 literal") };
    let mut frame = ethernet([0x86, 0xDD]);
    frame.extend_from_slice(&[0x60, 0, 0, 0, 0, 11, 58, 64]);
    frame.extend_from_slice(&[0xfd; 16]);
    frame.extend_from_slice(&bits.to_be_bytes());
    frame.extend_from_slice(&[128, 0, 0x12, 0x34, 0, 5, 0, 6, b'a', b'b', b'c']);
    let mut gate = start(&["2001:db8::/32"]);
    match gate.on_frame(&frame, NOW) {
        FrameVerdict::Ping { packet, .. } => {
            assert_eq!(packet, [128, 0, 0, 0, 0, 5, 0, 6, b'a', b'b', b'c'])
        }
        other => panic!("allowed ping must be relayed: {other:?}"),
    }
    let echo = peek_icmp_echo_request(&frame).unwrap();
    assert!(ping_reply(&frame[..14], &echo, &[129, 0, 0, 0, 1, 1, 0, 6, b'x']).is_some());
    assert!(ping_reply(&frame[..14], &echo, &[0, 0, 0, 0, 1, 1, 0, 6, b'x']).is_none());
    assert!(ping_reply(&frame[..14], &echo, &[129, 0, 0, 0, 1, 1, 0]).is_none());
}

#[test]
fn unparsable_dns_packets_are_ignored() {
    let mut gate = start(&["echo.test"]);
    assert!(matches!(gate.on_dns_packet(b"short"), DnsVerdict::Ignore));
    match gate.on_dns_packet(&dns_packet("other.test")) {
        DnsVerdict::Refuse(refusal) => assert!(parse_query(&refusal).is_none()),
        other => panic!("an unlisted name is refused: {other:?}"),
    }
}

#[test]
fn relay_steps_follow_the_io_outcomes() {
    assert_eq!(read_step(IoOutcome::Moved(0)), StreamStep::Close);
    assert_eq!(read_step(IoOutcome::Moved(1)), StreamStep::Again);
    assert_eq!(read_step(IoOutcome::WouldBlock), StreamStep::Stop);
    assert_eq!(read_step(IoOutcome::Failed), StreamStep::Abort);
    let mut relay = Relay::new();
    assert!(!relay.pulled(Vec::new()));
    assert_eq!(relay.guest_step(false), GuestStep::Stop);
    relay.pulled(b"ab".to_vec());
    assert_eq!(relay.wrote(IoOutcome::Moved(0)), StreamStep::Close);
    assert_eq!(relay.wrote(IoOutcome::Failed), StreamStep::Abort);
    assert!(!relay.finished(false, false), "bytes are still pending");
    assert!(!relay.finished(true, false));

    assert_eq!(read_budget(true, 100, 40, 4096), Some(60));
    assert_eq!(read_budget(true, 65536, 0, 4096), Some(4096));
    assert_eq!(read_budget(true, 100, 100, 4096), None);
    assert_eq!(read_budget(false, 100, 0, 4096), None);
}

#[test]
fn relay_keeps_every_byte_over_a_call() {
    let mut relay = Relay::new();
    let mut written: Vec<u8> = Vec::new();
    for (pull, outcomes) in [
        (&b"hello "[..], vec![IoOutcome::Moved(2), IoOutcome::WouldBlock, IoOutcome::Moved(4)]),
        (&b"world"[..], vec![IoOutcome::Moved(3)]),
    ] {
        assert_eq!(relay.guest_step(true), GuestStep::Pull);
        assert!(relay.pulled(pull.to_vec()));
        for outcome in outcomes {
            if let IoOutcome::Moved(n) = outcome {
                written.extend_from_slice(&relay.pending[..n]);
            }
            relay.wrote(outcome);
        }
    }
    assert_eq!(written, b"hello wor");
    assert_eq!(relay.pending, b"ld");
}

#[test]
fn ip_headers_in_front_of_ping_replies_are_stripped() {
    let mut packet = vec![0x45; 20];
    packet.extend_from_slice(&[0, 0, 1, 2]);
    assert_eq!(strip_ip_header(packet.clone()), [0, 0, 1, 2]);
    packet[0] = 0x46; // announces 24 bytes of header: nothing would be left
    assert_eq!(strip_ip_header(packet.clone()), packet);
    assert_eq!(strip_ip_header(vec![0, 0, 1]), [0, 0, 1]);
    assert_eq!(strip_ip_header(vec![0x45; 20]), vec![0x45; 20]);
    assert_eq!(strip_ip_header(Vec::new()), Vec::<u8>::new());
}
