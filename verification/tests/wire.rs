//! Frame-peek codec: hand-built byte-exact frames.

use vz_backend::ip::IpAddr;
use vz_backend::ip_text::parse_ip;
use vz_backend::wire::{
    internet_checksum, peek_icmp_echo_request, peek_tcp_syn, peek_udp, tcp_checksum,
    transport_checksum, IcmpEchoInfo, TcpSynInfo, UdpInfo, IP_PROTO_ICMPV6,
};
use vz_backend::wire_reply::{synthesize_echo_reply, synthesize_rst};

const GUEST_MAC: [u8; 6] = [0x02, 0, 0, 0, 0, 0x15];
const GATE_MAC: [u8; 6] = [0x02, 0, 0, 0, 0, 0x02];
const GUEST: [u8; 4] = [10, 0, 2, 15];

fn v4(octets: [u8; 4]) -> IpAddr {
    IpAddr::V4(u32::from_be_bytes(octets))
}

fn v6(text: &str) -> (IpAddr, [u8; 16]) {
    match parse_ip(text) {
        Some(IpAddr::V6(bits)) => (IpAddr::V6(bits), bits.to_be_bytes()),
        other => panic!("not an IPv6 literal: {other:?}"),
    }
}

fn guest6() -> (IpAddr, [u8; 16]) {
    v6("fd00:6d78:63::15")
}

/// The reference checksum, summed the plain way.
fn plain_checksum(bytes: &[u8]) -> u16 {
    let mut sum = 0u32;
    for chunk in bytes.chunks(2) {
        let word = (u32::from(chunk[0]) << 8) | u32::from(*chunk.get(1).unwrap_or(&0));
        sum += word;
    }
    while sum >> 16 != 0 {
        sum = (sum & 0xffff) + (sum >> 16);
    }
    !(sum as u16)
}

fn plain_tcp_checksum(src: [u8; 4], dst: [u8; 4], tcp: &[u8]) -> u16 {
    let mut pseudo = Vec::new();
    pseudo.extend_from_slice(&src);
    pseudo.extend_from_slice(&dst);
    pseudo.push(0);
    pseudo.push(6);
    pseudo.extend_from_slice(&(tcp.len() as u16).to_be_bytes());
    pseudo.extend_from_slice(tcp);
    plain_checksum(&pseudo)
}

fn ipv4_header(total_len: u16, protocol: u8, src: [u8; 4], dst: [u8; 4]) -> Vec<u8> {
    let mut ip = vec![
        0x45, 0,
        (total_len >> 8) as u8, total_len as u8,
        0, 0, 0x40, 0,
        64, protocol, 0, 0,
    ];
    ip.extend_from_slice(&src);
    ip.extend_from_slice(&dst);
    let checksum = plain_checksum(&ip);
    ip[10] = (checksum >> 8) as u8;
    ip[11] = checksum as u8;
    ip
}

fn tcp_frame(dst_ip: [u8; 4], src_port: u16, dst_port: u16, seq: u32, flags: u8) -> Vec<u8> {
    let mut frame = Vec::new();
    frame.extend_from_slice(&GATE_MAC);
    frame.extend_from_slice(&GUEST_MAC);
    frame.extend_from_slice(&[0x08, 0x00]);
    frame.extend_from_slice(&ipv4_header(40, 6, GUEST, dst_ip));
    let mut tcp = Vec::new();
    tcp.extend_from_slice(&src_port.to_be_bytes());
    tcp.extend_from_slice(&dst_port.to_be_bytes());
    tcp.extend_from_slice(&seq.to_be_bytes());
    tcp.extend_from_slice(&0u32.to_be_bytes());
    tcp.push(5 << 4);
    tcp.push(flags);
    tcp.extend_from_slice(&[0x20, 0x00, 0, 0, 0, 0]);
    let checksum = plain_tcp_checksum(GUEST, dst_ip, &tcp);
    tcp[16] = (checksum >> 8) as u8;
    tcp[17] = checksum as u8;
    frame.extend_from_slice(&tcp);
    frame
}

#[test]
fn syn_frame_is_detected_with_its_flow_details() {
    let dst = [140, 82, 112, 22];
    let frame = tcp_frame(dst, 49500, 443, 0x1000, 0x02);
    let syn = peek_tcp_syn(&frame).expect("SYN must be detected");
    assert_eq!(
        syn,
        TcpSynInfo {
            src_ip: v4(GUEST),
            dst_ip: v4(dst),
            src_port: 49500,
            dst_port: 443,
            seq: 0x1000,
        }
    );
}

#[test]
fn non_syn_tcp_frames_are_not_flagged() {
    for flags in [0x10u8, 0x18, 0x12, 0x04, 0x11] {
        // ACK, PSH|ACK, SYN|ACK (server-side, not a new guest flow), RST, FIN|ACK
        let frame = tcp_frame([140, 82, 112, 22], 49500, 443, 1, flags);
        assert_eq!(peek_tcp_syn(&frame), None, "flags {flags:#04x} must not match");
    }
}

#[test]
fn non_tcp_and_non_ipv4_frames_are_ignored() {
    let mut arp = Vec::new();
    arp.extend_from_slice(&GATE_MAC);
    arp.extend_from_slice(&GUEST_MAC);
    arp.extend_from_slice(&[0x08, 0x06]);
    arp.extend_from_slice(&[0u8; 28]);
    assert_eq!(peek_tcp_syn(&arp), None);

    let mut udp = tcp_frame([10, 0, 2, 3], 5353, 53, 0, 0x02);
    udp[23] = 17; // protocol = UDP
    assert_eq!(peek_tcp_syn(&udp), None);
}

#[test]
fn truncated_and_garbage_frames_never_panic() {
    let good = tcp_frame([1, 2, 3, 4], 1, 2, 3, 0x02);
    for len in 0..good.len() {
        let _ = peek_tcp_syn(&good[..len]);
    }
    let garbage: Vec<u8> = (0..=255).cycle().take(96).collect();
    let _ = peek_tcp_syn(&garbage);
}

#[test]
fn ip_options_shift_the_tcp_header() {
    // IHL 6 (one option word): the TCP header starts 4 bytes later.
    let base = tcp_frame([9, 9, 9, 9], 7, 8, 9, 0x02);
    let mut frame = base[..14].to_vec();
    let mut ip = base[14..34].to_vec();
    ip[0] = 0x46;
    frame.extend_from_slice(&ip);
    frame.extend_from_slice(&[1, 1, 1, 1]);
    frame.extend_from_slice(&base[34..]);
    let syn = peek_tcp_syn(&frame).expect("SYN behind IP options must be detected");
    assert_eq!(syn.dst_port, 8);
}

#[test]
fn short_header_lengths_are_not_ip() {
    let mut frame = tcp_frame([9, 9, 9, 9], 7, 8, 9, 0x02);
    frame[14] = 0x44; // IHL 4: shorter than an IPv4 header
    assert_eq!(peek_tcp_syn(&frame), None);
    frame[14] = 0x55; // version 5
    assert_eq!(peek_tcp_syn(&frame), None);
}

fn udp_frame(dst_ip: [u8; 4], src_port: u16, dst_port: u16, payload: &[u8]) -> Vec<u8> {
    let mut frame = Vec::new();
    frame.extend_from_slice(&GATE_MAC);
    frame.extend_from_slice(&GUEST_MAC);
    frame.extend_from_slice(&[0x08, 0x00]);
    let udp_len = 8 + payload.len() as u16;
    frame.extend_from_slice(&ipv4_header(20 + udp_len, 17, GUEST, dst_ip));
    frame.extend_from_slice(&src_port.to_be_bytes());
    frame.extend_from_slice(&dst_port.to_be_bytes());
    frame.extend_from_slice(&udp_len.to_be_bytes());
    frame.extend_from_slice(&[0, 0]);
    frame.extend_from_slice(payload);
    frame
}

#[test]
fn udp_frame_is_detected_with_its_flow_details() {
    let dst = [1, 1, 1, 1];
    let frame = udp_frame(dst, 40000, 123, b"ntp-ish");
    assert_eq!(
        peek_udp(&frame),
        Some(UdpInfo {
            src_ip: v4(GUEST),
            dst_ip: v4(dst),
            src_port: 40000,
            dst_port: 123,
        })
    );
}

#[test]
fn peek_udp_ignores_tcp_and_garbage() {
    let tcp = tcp_frame([1, 2, 3, 4], 1, 2, 3, 0x02);
    assert_eq!(peek_udp(&tcp), None);
    let good = udp_frame([1, 1, 1, 1], 1, 2, b"x");
    for len in 0..good.len() {
        let _ = peek_udp(&good[..len]);
    }
}

fn icmp_echo_frame(dst_ip: [u8; 4], id: u16, seq: u16, payload: &[u8]) -> Vec<u8> {
    let mut frame = Vec::new();
    frame.extend_from_slice(&GATE_MAC);
    frame.extend_from_slice(&GUEST_MAC);
    frame.extend_from_slice(&[0x08, 0x00]);
    let icmp_len = 8 + payload.len() as u16;
    frame.extend_from_slice(&ipv4_header(20 + icmp_len, 1, GUEST, dst_ip));
    let mut icmp = vec![8, 0, 0, 0];
    icmp.extend_from_slice(&id.to_be_bytes());
    icmp.extend_from_slice(&seq.to_be_bytes());
    icmp.extend_from_slice(payload);
    let checksum = plain_checksum(&icmp);
    icmp[2] = (checksum >> 8) as u8;
    icmp[3] = checksum as u8;
    frame.extend_from_slice(&icmp);
    frame
}

#[test]
fn icmp_echo_request_is_detected_with_id_seq_and_payload() {
    let dst = [1, 1, 1, 1];
    let frame = icmp_echo_frame(dst, 0x1234, 7, b"ping payload");
    let echo = peek_icmp_echo_request(&frame).expect("echo request must be detected");
    assert_eq!(
        echo,
        IcmpEchoInfo {
            src_ip: v4(GUEST),
            dst_ip: v4(dst),
            id: 0x1234,
            seq: 7,
            payload: b"ping payload".to_vec(),
        }
    );
}

#[test]
fn icmp_non_echo_and_garbage_are_ignored() {
    // An echo REPLY (type 0) is not a request.
    let mut reply = icmp_echo_frame([1, 1, 1, 1], 1, 1, b"x");
    reply[34] = 0;
    assert_eq!(peek_icmp_echo_request(&reply), None);
    // TCP is not ICMP.
    let tcp = tcp_frame([1, 2, 3, 4], 1, 2, 3, 0x02);
    assert_eq!(peek_icmp_echo_request(&tcp), None);
    let good = icmp_echo_frame([1, 1, 1, 1], 1, 1, b"abc");
    for len in 0..good.len() {
        let _ = peek_icmp_echo_request(&good[..len]);
    }
}

#[test]
fn echo_reply_frame_reverses_the_flow_with_valid_checksums() {
    let dst = [1, 1, 1, 1];
    let request = icmp_echo_frame(dst, 0x4242, 3, b"round trip");
    let echo = peek_icmp_echo_request(&request).unwrap();
    let reply = synthesize_echo_reply(&request, &echo, b"round trip");

    assert_eq!(&reply[0..6], &GUEST_MAC, "back to the guest");
    assert_eq!(&reply[26..30], &dst, "source is the pinged host");
    assert_eq!(&reply[30..34], &GUEST);
    assert_eq!(plain_checksum(&reply[14..34]), 0, "IP checksum must verify");

    let icmp = &reply[34..];
    assert_eq!(icmp[0], 0, "type must be echo reply");
    assert_eq!(u16::from_be_bytes([icmp[4], icmp[5]]), 0x4242, "guest id restored");
    assert_eq!(u16::from_be_bytes([icmp[6], icmp[7]]), 3, "seq preserved");
    assert_eq!(&icmp[8..], b"round trip");
    assert_eq!(plain_checksum(icmp), 0, "ICMP checksum must verify");
}

#[test]
fn rst_answers_the_syn_with_swapped_flow_and_valid_checksums() {
    let dst = [140, 82, 112, 22];
    let syn_frame = tcp_frame(dst, 49500, 443, 0x2000, 0x02);
    let syn = peek_tcp_syn(&syn_frame).unwrap();
    let rst = synthesize_rst(&syn_frame, &syn).expect("RST synthesis");

    // Ethernet: back to the guest.
    assert_eq!(&rst[0..6], &GUEST_MAC);
    assert_eq!(&rst[6..12], &GATE_MAC);
    assert_eq!(&rst[12..14], &[0x08, 0x00]);

    // IP: swapped addresses, valid header checksum.
    assert_eq!(&rst[26..30], &dst);
    assert_eq!(&rst[30..34], &GUEST);
    assert_eq!(plain_checksum(&rst[14..34]), 0, "IP checksum must verify");

    // TCP: swapped ports, RST|ACK, ack = seq+1, valid checksum.
    let tcp = &rst[34..];
    assert_eq!(u16::from_be_bytes([tcp[0], tcp[1]]), 443);
    assert_eq!(u16::from_be_bytes([tcp[2], tcp[3]]), 49500);
    assert_eq!(tcp[13] & 0x04, 0x04, "RST flag");
    assert_eq!(tcp[13] & 0x10, 0x10, "ACK flag");
    let ack = u32::from_be_bytes([tcp[8], tcp[9], tcp[10], tcp[11]]);
    assert_eq!(ack, 0x2001, "ack must be the SYN's seq + 1");
    assert_eq!(plain_tcp_checksum(dst, GUEST, tcp), 0, "TCP checksum must verify");
}

#[test]
fn rst_acknowledgement_wraps_around() {
    let syn_frame = tcp_frame([9, 9, 9, 9], 1, 2, u32::MAX, 0x02);
    let syn = peek_tcp_syn(&syn_frame).unwrap();
    let rst = synthesize_rst(&syn_frame, &syn).unwrap();
    assert_eq!(&rst[34 + 8..34 + 12], &[0, 0, 0, 0]);
}

#[test]
fn rst_needs_an_ethernet_header_and_one_family() {
    let syn_frame = tcp_frame([9, 9, 9, 9], 1, 2, 3, 0x02);
    let mut syn = peek_tcp_syn(&syn_frame).unwrap();
    assert_eq!(synthesize_rst(&syn_frame[..13], &syn), None);
    syn.dst_ip = guest6().0;
    assert_eq!(synthesize_rst(&syn_frame, &syn), None);
}

fn tcp6_frame(src: [u8; 16], dst: [u8; 16], src_port: u16, dst_port: u16, seq: u32, flags: u8) -> Vec<u8> {
    let mut frame = Vec::new();
    frame.extend_from_slice(&GATE_MAC);
    frame.extend_from_slice(&GUEST_MAC);
    frame.extend_from_slice(&[0x86, 0xDD]);
    let mut ip = vec![0x60, 0, 0, 0];
    ip.extend_from_slice(&20u16.to_be_bytes());
    ip.push(6);
    ip.push(64);
    ip.extend_from_slice(&src);
    ip.extend_from_slice(&dst);
    frame.extend_from_slice(&ip);

    let mut tcp = Vec::new();
    tcp.extend_from_slice(&src_port.to_be_bytes());
    tcp.extend_from_slice(&dst_port.to_be_bytes());
    tcp.extend_from_slice(&seq.to_be_bytes());
    tcp.extend_from_slice(&0u32.to_be_bytes());
    tcp.push(5 << 4);
    tcp.push(flags);
    tcp.extend_from_slice(&[0x20, 0x00, 0, 0, 0, 0]);
    let mut pseudo = Vec::new();
    pseudo.extend_from_slice(&src);
    pseudo.extend_from_slice(&dst);
    pseudo.extend_from_slice(&(tcp.len() as u32).to_be_bytes());
    pseudo.extend_from_slice(&[0, 0, 0, 6]);
    pseudo.extend_from_slice(&tcp);
    let checksum = plain_checksum(&pseudo);
    tcp[16] = (checksum >> 8) as u8;
    tcp[17] = checksum as u8;
    frame.extend_from_slice(&tcp);
    frame
}

#[test]
fn v6_syn_is_detected() {
    let (dst, dst_octets) = v6("2606:50c0:8000::153");
    let frame = tcp6_frame(guest6().1, dst_octets, 50000, 443, 0x77, 0x02);
    let syn = peek_tcp_syn(&frame).expect("v6 SYN must be detected");
    assert_eq!(syn.src_ip, guest6().0);
    assert_eq!(syn.dst_ip, dst);
    assert_eq!(syn.dst_port, 443);
    for len in 0..frame.len() {
        let _ = peek_tcp_syn(&frame[..len]);
    }
}

#[test]
fn v6_rst_reverses_the_flow_with_a_valid_checksum() {
    let (_, dst_octets) = v6("2606:50c0:8000::153");
    let syn_frame = tcp6_frame(guest6().1, dst_octets, 50000, 443, 0x3000, 0x02);
    let syn = peek_tcp_syn(&syn_frame).unwrap();
    let rst = synthesize_rst(&syn_frame, &syn).expect("v6 RST synthesis");

    assert_eq!(&rst[0..6], &GUEST_MAC);
    assert_eq!(&rst[12..14], &[0x86, 0xDD]);
    assert_eq!(&rst[22..38], &dst_octets, "source is the denied destination");
    assert_eq!(&rst[38..54], &guest6().1);

    let tcp = &rst[54..];
    assert_eq!(u16::from_be_bytes([tcp[0], tcp[1]]), 443);
    assert_eq!(tcp[13] & 0x04, 0x04, "RST flag");
    let ack = u32::from_be_bytes([tcp[8], tcp[9], tcp[10], tcp[11]]);
    assert_eq!(ack, 0x3001);
    let mut pseudo = Vec::new();
    pseudo.extend_from_slice(&rst[22..38]);
    pseudo.extend_from_slice(&rst[38..54]);
    pseudo.extend_from_slice(&(tcp.len() as u32).to_be_bytes());
    pseudo.extend_from_slice(&[0, 0, 0, 6]);
    pseudo.extend_from_slice(tcp);
    assert_eq!(plain_checksum(&pseudo), 0, "TCP checksum must verify");
}

#[test]
fn v6_frames_with_extension_headers_are_not_intercepted() {
    let (_, dst_octets) = v6("2606:50c0:8000::153");
    let mut frame = tcp6_frame(guest6().1, dst_octets, 1, 2, 3, 0x02);
    frame[14 + 6] = 0; // hop-by-hop options
    assert_eq!(peek_tcp_syn(&frame), None);
    assert_eq!(peek_udp(&frame), None);
}

fn icmp6_echo_frame(src: [u8; 16], dst: [u8; 16], id: u16, seq: u16, payload: &[u8]) -> Vec<u8> {
    let mut icmp = vec![128u8, 0, 0, 0];
    icmp.extend_from_slice(&id.to_be_bytes());
    icmp.extend_from_slice(&seq.to_be_bytes());
    icmp.extend_from_slice(payload);
    let mut pseudo = Vec::new();
    pseudo.extend_from_slice(&src);
    pseudo.extend_from_slice(&dst);
    pseudo.extend_from_slice(&(icmp.len() as u32).to_be_bytes());
    pseudo.extend_from_slice(&[0, 0, 0, 58]);
    pseudo.extend_from_slice(&icmp);
    let c = plain_checksum(&pseudo);
    icmp[2] = (c >> 8) as u8;
    icmp[3] = c as u8;

    let mut frame = Vec::new();
    frame.extend_from_slice(&GATE_MAC);
    frame.extend_from_slice(&GUEST_MAC);
    frame.extend_from_slice(&[0x86, 0xDD]);
    let mut ip = vec![0x60, 0, 0, 0];
    ip.extend_from_slice(&(icmp.len() as u16).to_be_bytes());
    ip.push(58);
    ip.push(64);
    ip.extend_from_slice(&src);
    ip.extend_from_slice(&dst);
    frame.extend_from_slice(&ip);
    frame.extend_from_slice(&icmp);
    frame
}

#[test]
fn v6_echo_request_is_detected() {
    let (dst, dst_octets) = v6("fd00:beef::9");
    let frame = icmp6_echo_frame(guest6().1, dst_octets, 0x7777, 3, b"ping6");
    let echo = peek_icmp_echo_request(&frame).expect("v6 echo request must be detected");
    assert_eq!(echo.src_ip, guest6().0);
    assert_eq!(echo.dst_ip, dst);
    assert_eq!(echo.id, 0x7777);
    assert_eq!(echo.payload, b"ping6");
    // NDP must never be intercepted: type 135 (neighbor solicitation).
    let mut ns = frame.clone();
    ns[54] = 135;
    assert_eq!(peek_icmp_echo_request(&ns), None);
    for len in 0..frame.len() {
        let _ = peek_icmp_echo_request(&frame[..len]);
    }
}

#[test]
fn v6_echo_reply_frame_has_a_valid_pseudo_header_checksum() {
    let (_, dst_octets) = v6("fd00:beef::9");
    let request = icmp6_echo_frame(guest6().1, dst_octets, 0x4141, 5, b"v6 round trip");
    let echo = peek_icmp_echo_request(&request).unwrap();
    let reply = synthesize_echo_reply(&request, &echo, b"v6 round trip");

    assert_eq!(&reply[0..6], &GUEST_MAC);
    assert_eq!(&reply[12..14], &[0x86, 0xDD]);
    assert_eq!(&reply[22..38], &dst_octets, "source is the pinged host");
    assert_eq!(&reply[38..54], &guest6().1);

    let icmp = &reply[54..];
    assert_eq!(icmp[0], 129, "ICMPv6 echo reply");
    assert_eq!(u16::from_be_bytes([icmp[4], icmp[5]]), 0x4141, "guest id restored");
    assert_eq!(&icmp[8..], b"v6 round trip");
    let mut pseudo = Vec::new();
    pseudo.extend_from_slice(&reply[22..38]);
    pseudo.extend_from_slice(&reply[38..54]);
    pseudo.extend_from_slice(&(icmp.len() as u32).to_be_bytes());
    pseudo.extend_from_slice(&[0, 0, 0, 58]);
    pseudo.extend_from_slice(icmp);
    assert_eq!(plain_checksum(&pseudo), 0, "ICMPv6 checksum must verify");
}

#[test]
fn synthesized_frames_are_not_intercepted_themselves() {
    let syn_frame = tcp_frame([9, 9, 9, 9], 1, 2, 3, 0x02);
    let syn = peek_tcp_syn(&syn_frame).unwrap();
    let rst = synthesize_rst(&syn_frame, &syn).unwrap();
    assert_eq!(peek_tcp_syn(&rst), None);

    let request = icmp_echo_frame([9, 9, 9, 9], 1, 2, b"x");
    let echo = peek_icmp_echo_request(&request).unwrap();
    let reply = synthesize_echo_reply(&request, &echo, b"x");
    assert_eq!(peek_icmp_echo_request(&reply), None);
}

#[test]
fn checksum_has_known_values() {
    assert_eq!(internet_checksum(&[]), 0xFFFF);
    assert_eq!(internet_checksum(&[0x00, 0x01, 0xf2, 0x03, 0xf4, 0xf5, 0xf6, 0xf7]), 0x220d);
    assert_eq!(internet_checksum(&[0xFF, 0xFF]), 0);
    // An odd last byte is the high half of a word.
    assert_eq!(internet_checksum(&[0x12]), 0xEDFF);
    let long = vec![0xFFu8; 300_001];
    assert_eq!(internet_checksum(&long), !0xFF00u16);
}

#[test]
fn checksums_of_mixed_families_are_zero() {
    assert_eq!(tcp_checksum(v4(GUEST), guest6().0, b"abc"), 0);
    assert_eq!(transport_checksum(guest6().0, v4(GUEST), IP_PROTO_ICMPV6, b"abc"), 0);
    assert_eq!(
        tcp_checksum(v4([1, 2, 3, 4]), v4(GUEST), b"abcdef"),
        plain_tcp_checksum([1, 2, 3, 4], GUEST, b"abcdef")
    );
}
