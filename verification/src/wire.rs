//! Minimal raw-frame inspection for the egress gate's NAT decision point.
//!
//! The egress gate peeks every guest frame *before* the TCP/IP stack processes it:
//! an allowed destination gets a dynamically created listener, a denied TCP
//! one a synthesized RST. Only the few header fields needed for that decision
//! are parsed; everything else (ARP, established flows, reassembly) belongs
//! to the stack. The parsers take arbitrary bytes: the guest owns the frame.

use vstd::prelude::*;
use vstd::slice::slice_subrange;
use crate::bytes::{
    be_bytes, be_bytes_len, be_value, push_all, push_len16, push_len32, read_u128, read_u16,
    read_u32,
};
use crate::ip::IpAddr;

verus! {

pub const IP_PROTO_ICMP: u8 = 1;
pub const IP_PROTO_TCP: u8 = 6;
pub const IP_PROTO_UDP: u8 = 17;
pub const IP_PROTO_ICMPV6: u8 = 58;
pub const TCP_FLAG_SYN: u8 = 0x02;
pub const TCP_FLAG_RST: u8 = 0x04;
pub const TCP_FLAG_ACK: u8 = 0x10;
pub const ICMP_ECHO_REQUEST: u8 = 8;
pub const ICMP_ECHO_REPLY: u8 = 0;
pub const ICMPV6_ECHO_REQUEST: u8 = 128;
pub const ICMPV6_ECHO_REPLY: u8 = 129;

// ---------------------------------------------------------------------------
// The internet checksum
// ---------------------------------------------------------------------------

/// The sum of the big-endian 16-bit words of `bytes`; an odd last byte counts
/// as the high half of a word.
pub open spec fn word_sum(bytes: Seq<u8>) -> nat
    decreases bytes.len(),
{
    if bytes.len() == 0 {
        0
    } else if bytes.len() == 1 {
        bytes[0] as nat * 256
    } else {
        bytes[0] as nat * 256 + bytes[1] as nat + word_sum(bytes.skip(2))
    }
}

/// A sum of words brought into 16 bits by end-around carry.
pub open spec fn carry_folded(sum: nat) -> nat {
    if sum == 0 {
        0
    } else {
        1 + (sum - 1) as nat % 65535
    }
}

/// The internet checksum of `bytes`: the ones' complement of their ones'
/// complement sum.
pub open spec fn checksum_of(bytes: Seq<u8>) -> u16 {
    (65535 - carry_folded(word_sum(bytes))) as u16
}

/// Carrying 65535 out of a sum does not change what it folds to.
proof fn fold_drops_a_carry(sum: nat)
    requires
        sum > 65535,
    ensures
        carry_folded(sum) == carry_folded((sum - 65535) as nat),
{
    let low = (sum - 65535 - 1) as nat;
    vstd::arithmetic::div_mod::lemma_mod_add_multiples_vanish(low as int, 65535);
}

pub fn internet_checksum(bytes: &[u8]) -> (checksum: u16)
    ensures
        checksum == checksum_of(bytes@),
{
    let mut sum: u32 = 0;
    let mut at: usize = 0;
    let len: usize = bytes.len();
    assert(bytes@.skip(0) =~= bytes@);
    while at < len
        invariant
            len == bytes@.len(),
            at <= len,
            sum <= 65535,
            carry_folded(sum as nat + word_sum(bytes@.skip(at as int))) == carry_folded(
                word_sum(bytes@),
            ),
        decreases len - at,
    {
        let ghost rest = bytes@.skip(at as int);
        let low: u32 = if len - at >= 2 {
            bytes[at + 1] as u32
        } else {
            0
        };
        let word: u32 = bytes[at] as u32 * 256 + low;
        let step: usize = if len - at >= 2 {
            2
        } else {
            1
        };
        let ghost later = word_sum(bytes@.skip(at + step));
        proof {
            if len - at >= 2 {
                assert(rest.skip(2) =~= bytes@.skip(at + 2));
            } else {
                assert(bytes@.skip(at + 1).len() == 0);
            }
            assert(word_sum(rest) == word as nat + later);
        }
        sum = sum + word;
        if sum > 65535 {
            proof {
                fold_drops_a_carry(sum as nat + later);
            }
            sum = sum - 65535;
        }
        at = at + step;
    }
    assert(bytes@.skip(len as int).len() == 0);
    assert(carry_folded(sum as nat) == sum as nat);
    (65535 - sum) as u16
}

/// What a transport checksum covers besides the segment itself.
pub open spec fn pseudo_header(src: IpAddr, dst: IpAddr, protocol: u8, len: nat) -> Seq<u8> {
    if src is V4 {
        src.octets() + dst.octets() + seq![0u8, protocol] + be_bytes(len, 2)
    } else {
        src.octets() + dst.octets() + be_bytes(len, 4) + seq![0u8, 0u8, 0u8, protocol]
    }
}

/// The checksum of a transport segment between two addresses; 0 where the
/// addresses are of different families, which no one segment has.
pub open spec fn transport_checksum_of(
    src: IpAddr,
    dst: IpAddr,
    protocol: u8,
    segment: Seq<u8>,
) -> u16 {
    if src.same_family(dst) {
        checksum_of(pseudo_header(src, dst, protocol, segment.len()) + segment)
    } else {
        0
    }
}

pub fn transport_checksum(src: IpAddr, dst: IpAddr, protocol: u8, segment: &[u8]) -> (checksum:
    u16)
    ensures
        checksum == transport_checksum_of(src, dst, protocol, segment@),
{
    broadcast use be_bytes_len;

    let mut pseudo: Vec<u8> = Vec::new();
    match (src, dst) {
        (IpAddr::V4(_), IpAddr::V4(_)) => {
            src.push_octets(&mut pseudo);
            dst.push_octets(&mut pseudo);
            pseudo.push(0);
            pseudo.push(protocol);
            assert(pseudo@ =~= src.octets() + dst.octets() + seq![0u8, protocol]);
            push_len16(&mut pseudo, segment.len());
        },
        (IpAddr::V6(_), IpAddr::V6(_)) => {
            src.push_octets(&mut pseudo);
            dst.push_octets(&mut pseudo);
            assert(pseudo@ =~= src.octets() + dst.octets());
            push_len32(&mut pseudo, segment.len());
            let ghost before = pseudo@;
            pseudo.push(0);
            pseudo.push(0);
            pseudo.push(0);
            pseudo.push(protocol);
            assert(pseudo@ =~= before + seq![0u8, 0u8, 0u8, protocol]);
        },
        _ => {
            return 0;
        },
    }
    push_all(&mut pseudo, segment);
    internet_checksum(pseudo.as_slice())
}

pub fn tcp_checksum(src: IpAddr, dst: IpAddr, tcp: &[u8]) -> (checksum: u16)
    ensures
        checksum == transport_checksum_of(src, dst, IP_PROTO_TCP, tcp@),
{
    transport_checksum(src, dst, IP_PROTO_TCP, tcp)
}

// ---------------------------------------------------------------------------
// Peeking
// ---------------------------------------------------------------------------

/// The fields of an IP header that the egress gate reads, and where its payload
/// begins in the frame.
#[derive(Clone, Copy, Debug, PartialEq, Eq, Structural)]
pub struct IpPacket {
    pub src: IpAddr,
    pub dst: IpAddr,
    pub protocol: u8,
    pub payload_at: usize,
}

/// The IPv4 header length that `frame` announces, where it holds a whole
/// IPv4 header.
pub open spec fn ipv4_header_len_in(frame: Seq<u8>) -> Option<usize> {
    if frame.len() >= 34 && frame[12] == 0x08 && frame[13] == 0x00 && frame[14] / 16 == 4
        && frame[14] % 16 >= 5 && frame.len() >= 14 + (frame[14] % 16) * 4 {
        Some(((frame[14] % 16) * 4) as usize)
    } else {
        None
    }
}

/// The IP packet in an ethernet frame. IPv6 extension headers are not walked:
/// the protocol is then the extension's number.
pub open spec fn ip_packet_in(frame: Seq<u8>) -> Option<IpPacket> {
    if let Some(header_len) = ipv4_header_len_in(frame) {
        Some(
            IpPacket {
                src: IpAddr::V4(be_value(frame.subrange(26, 30)) as u32),
                dst: IpAddr::V4(be_value(frame.subrange(30, 34)) as u32),
                protocol: frame[23],
                payload_at: (14 + header_len) as usize,
            },
        )
    } else if frame.len() >= 54 && frame[12] == 0x86 && frame[13] == 0xDD && frame[14] / 16 == 6 {
        Some(
            IpPacket {
                src: IpAddr::V6(be_value(frame.subrange(22, 38)) as u128),
                dst: IpAddr::V6(be_value(frame.subrange(38, 54)) as u128),
                protocol: frame[20],
                payload_at: 54,
            },
        )
    } else {
        None
    }
}

fn ipv4_slices(frame: &[u8]) -> (header_len: Option<usize>)
    ensures
        header_len == ipv4_header_len_in(frame@),
{
    if frame.len() < 34 || frame[12] != 0x08 || frame[13] != 0x00 {
        return None;
    }
    if frame[14] / 16 != 4 {
        return None;
    }
    let header_len: usize = (frame[14] % 16) as usize * 4;
    if header_len < 20 || frame.len() - 14 < header_len {
        return None;
    }
    Some(header_len)
}

/// Version-dispatching header parse.
pub fn ip_slices(frame: &[u8]) -> (packet: Option<IpPacket>)
    ensures
        packet == ip_packet_in(frame@),
{
    if let Some(header_len) = ipv4_slices(frame) {
        return Some(
            IpPacket {
                src: IpAddr::V4(read_u32(frame, 26)),
                dst: IpAddr::V4(read_u32(frame, 30)),
                protocol: frame[23],
                payload_at: 14 + header_len,
            },
        );
    }
    if frame.len() < 54 || frame[12] != 0x86 || frame[13] != 0xDD {
        return None;
    }
    if frame[14] / 16 != 6 {
        return None;
    }
    Some(
        IpPacket {
            src: IpAddr::V6(read_u128(frame, 22)),
            dst: IpAddr::V6(read_u128(frame, 38)),
            protocol: frame[20],
            payload_at: 54,
        },
    )
}

/// A new outbound TCP flow attempt observed on the wire.
#[derive(Clone, Copy, Debug, PartialEq, Eq, Structural)]
pub struct TcpSynInfo {
    pub src_ip: IpAddr,
    pub dst_ip: IpAddr,
    pub src_port: u16,
    pub dst_port: u16,
    pub seq: u32,
}

/// TCP flags that open a connection: SYN, and neither ACK nor RST.
pub open spec fn opens_connection(flags: u8) -> bool {
    flags & TCP_FLAG_SYN != 0 && flags & TCP_FLAG_ACK == 0 && flags & TCP_FLAG_RST == 0
}

/// The connection-opening segment in an ethernet frame.
pub open spec fn tcp_syn_in(frame: Seq<u8>) -> Option<TcpSynInfo> {
    match ip_packet_in(frame) {
        Some(packet) => {
            let at = packet.payload_at as int;
            if packet.protocol == IP_PROTO_TCP && frame.len() >= at + 20 && opens_connection(
                frame[at + 13],
            ) {
                Some(
                    TcpSynInfo {
                        src_ip: packet.src,
                        dst_ip: packet.dst,
                        src_port: be_value(frame.subrange(at, at + 2)) as u16,
                        dst_port: be_value(frame.subrange(at + 2, at + 4)) as u16,
                        seq: be_value(frame.subrange(at + 4, at + 8)) as u32,
                    },
                )
            } else {
                None
            }
        },
        None => None,
    }
}

/// If `frame` is an ethernet TCP segment over IPv4 or IPv6 with SYN set and
/// ACK and RST clear, returns its flow.
pub fn peek_tcp_syn(frame: &[u8]) -> (syn: Option<TcpSynInfo>)
    ensures
        syn == tcp_syn_in(frame@),
{
    let packet: IpPacket = match ip_slices(frame) {
        Some(packet) => packet,
        None => {
            return None;
        },
    };
    if packet.protocol != IP_PROTO_TCP {
        return None;
    }
    let at: usize = packet.payload_at;
    if frame.len() - at < 20 {
        return None;
    }
    let flags: u8 = frame[at + 13];
    if flags & TCP_FLAG_SYN == 0 || flags & TCP_FLAG_ACK != 0 || flags & TCP_FLAG_RST != 0 {
        return None;
    }
    Some(
        TcpSynInfo {
            src_ip: packet.src,
            dst_ip: packet.dst,
            src_port: read_u16(frame, at),
            dst_port: read_u16(frame, at + 2),
            seq: read_u32(frame, at + 4),
        },
    )
}

/// A UDP datagram observed on the wire.
#[derive(Clone, Copy, Debug, PartialEq, Eq, Structural)]
pub struct UdpInfo {
    pub src_ip: IpAddr,
    pub dst_ip: IpAddr,
    pub src_port: u16,
    pub dst_port: u16,
}

/// The UDP datagram in an ethernet frame.
pub open spec fn udp_in(frame: Seq<u8>) -> Option<UdpInfo> {
    match ip_packet_in(frame) {
        Some(packet) => {
            let at = packet.payload_at as int;
            if packet.protocol == IP_PROTO_UDP && frame.len() >= at + 8 {
                Some(
                    UdpInfo {
                        src_ip: packet.src,
                        dst_ip: packet.dst,
                        src_port: be_value(frame.subrange(at, at + 2)) as u16,
                        dst_port: be_value(frame.subrange(at + 2, at + 4)) as u16,
                    },
                )
            } else {
                None
            }
        },
        None => None,
    }
}

/// If `frame` is an ethernet UDP datagram over IPv4 or IPv6, returns its flow.
pub fn peek_udp(frame: &[u8]) -> (info: Option<UdpInfo>)
    ensures
        info == udp_in(frame@),
{
    let packet: IpPacket = match ip_slices(frame) {
        Some(packet) => packet,
        None => {
            return None;
        },
    };
    if packet.protocol != IP_PROTO_UDP {
        return None;
    }
    let at: usize = packet.payload_at;
    if frame.len() - at < 8 {
        return None;
    }
    Some(
        UdpInfo {
            src_ip: packet.src,
            dst_ip: packet.dst,
            src_port: read_u16(frame, at),
            dst_port: read_u16(frame, at + 2),
        },
    )
}

/// An ICMP echo request observed on the wire. The payload is owned: the relay
/// forwards it to the host ping socket.
#[derive(Clone, Debug, PartialEq, Eq)]
pub struct IcmpEchoInfo {
    pub src_ip: IpAddr,
    pub dst_ip: IpAddr,
    pub id: u16,
    pub seq: u16,
    pub payload: Vec<u8>,
}

/// What an echo request says.
#[verifier::ext_equal]
pub struct EchoModel {
    pub src_ip: IpAddr,
    pub dst_ip: IpAddr,
    pub id: u16,
    pub seq: u16,
    pub payload: Seq<u8>,
}

impl View for IcmpEchoInfo {
    type V = EchoModel;

    open spec fn view(&self) -> EchoModel {
        EchoModel {
            src_ip: self.src_ip,
            dst_ip: self.dst_ip,
            id: self.id,
            seq: self.seq,
            payload: self.payload@,
        }
    }
}

/// The echo request in an ethernet frame: ICMP type 8 over IPv4, ICMPv6 type
/// 128 over IPv6, code 0 in both.
pub open spec fn echo_request_in(frame: Seq<u8>) -> Option<EchoModel> {
    match ip_packet_in(frame) {
        Some(packet) => {
            let at = packet.payload_at as int;
            let is_v4 = packet.src is V4;
            let protocol = if is_v4 {
                IP_PROTO_ICMP
            } else {
                IP_PROTO_ICMPV6
            };
            let request = if is_v4 {
                ICMP_ECHO_REQUEST
            } else {
                ICMPV6_ECHO_REQUEST
            };
            if packet.protocol == protocol && frame.len() >= at + 8 && frame[at] == request
                && frame[at + 1] == 0 {
                Some(
                    EchoModel {
                        src_ip: packet.src,
                        dst_ip: packet.dst,
                        id: be_value(frame.subrange(at + 4, at + 6)) as u16,
                        seq: be_value(frame.subrange(at + 6, at + 8)) as u16,
                        payload: frame.skip(at + 8),
                    },
                )
            } else {
                None
            }
        },
        None => None,
    }
}

/// If `frame` is an ethernet ICMP or ICMPv6 echo request, returns its
/// details. Other ICMP types, neighbour discovery among them, are left alone.
pub fn peek_icmp_echo_request(frame: &[u8]) -> (echo: Option<IcmpEchoInfo>)
    ensures
        match echo {
            Some(info) => echo_request_in(frame@) == Some(info@),
            None => echo_request_in(frame@) is None,
        },
{
    let packet: IpPacket = match ip_slices(frame) {
        Some(packet) => packet,
        None => {
            return None;
        },
    };
    let (protocol, request): (u8, u8) = match packet.src {
        IpAddr::V4(_) => (IP_PROTO_ICMP, ICMP_ECHO_REQUEST),
        IpAddr::V6(_) => (IP_PROTO_ICMPV6, ICMPV6_ECHO_REQUEST),
    };
    if packet.protocol != protocol {
        return None;
    }
    let at: usize = packet.payload_at;
    if frame.len() - at < 8 || frame[at] != request || frame[at + 1] != 0 {
        return None;
    }
    let mut payload: Vec<u8> = Vec::new();
    push_all(&mut payload, slice_subrange(frame, at + 8, frame.len()));
    let info = IcmpEchoInfo {
        src_ip: packet.src,
        dst_ip: packet.dst,
        id: read_u16(frame, at + 4),
        seq: read_u16(frame, at + 6),
        payload,
    };
    assert(info@.payload =~= frame@.skip(at + 8));
    Some(info)
}

} // verus!
