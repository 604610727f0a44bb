//! Frames the egress gate writes to the guest itself: the RST that answers a denied
//! SYN, and the reply to a relayed ping.

use vstd::prelude::*;
use vstd::slice::slice_subrange;
use crate::bytes::{
    be_bytes, be_bytes_four, be_bytes_len, be_value, be_value_of_be_bytes, byte_range, push_all,
    push_len16, push_u16, push_u32, put16, write_u16,
};
use crate::ip::IpAddr;
use crate::wire::{
    carry_folded, checksum_of, echo_request_in, internet_checksum, ip_packet_in,
    opens_connection, pseudo_header, tcp_checksum, tcp_syn_in, transport_checksum,
    transport_checksum_of, udp_in, word_sum, EchoModel, IcmpEchoInfo, IpPacket, TcpSynInfo,
    ICMPV6_ECHO_REPLY, ICMP_ECHO_REPLY, IP_PROTO_ICMP, IP_PROTO_ICMPV6, IP_PROTO_TCP,
    TCP_FLAG_ACK, TCP_FLAG_RST,
};

verus! {

/// An ethernet header back to where `request` came from.
pub open spec fn reply_ethernet(request: Seq<u8>, is_v4: bool) -> Seq<u8> {
    request.subrange(6, 12) + request.subrange(0, 6) + if is_v4 {
        seq![0x08u8, 0x00u8]
    } else {
        seq![0x86u8, 0xDDu8]
    }
}

/// An IPv4 header without options, its checksum field still zero.
pub open spec fn ipv4_header_blank(payload_len: nat, protocol: u8, src: IpAddr, dst: IpAddr) -> Seq<
    u8,
> {
    seq![0x45u8, 0u8] + be_bytes(20 + payload_len, 2) + seq![
        0u8,
        0u8,
        0x40u8,
        0u8,
        64u8,
        protocol,
        0u8,
        0u8,
    ] + src.octets() + dst.octets()
}

/// The IP header of a packet from `src` to `dst`.
pub open spec fn ip_header(payload_len: nat, protocol: u8, src: IpAddr, dst: IpAddr) -> Seq<u8> {
    if src is V4 {
        let blank = ipv4_header_blank(payload_len, protocol, src, dst);
        put16(blank, 10, checksum_of(blank))
    } else {
        seq![0x60u8, 0u8, 0u8, 0u8] + be_bytes(payload_len, 2) + seq![protocol, 64u8]
            + src.octets() + dst.octets()
    }
}

/// The RST segment that answers `syn`, its checksum field still zero.
pub open spec fn rst_segment_blank(syn: TcpSynInfo) -> Seq<u8> {
    be_bytes(syn.dst_port as nat, 2) + be_bytes(syn.src_port as nat, 2) + seq![0u8, 0u8, 0u8, 0u8]
        + be_bytes((syn.seq + 1) as nat, 4) + seq![
        0x50u8,
        0x14u8,
        0u8,
        0u8,
        0u8,
        0u8,
        0u8,
        0u8,
    ]
}

pub open spec fn rst_segment(syn: TcpSynInfo) -> Seq<u8> {
    let blank = rst_segment_blank(syn);
    put16(blank, 16, transport_checksum_of(syn.dst_ip, syn.src_ip, IP_PROTO_TCP, blank))
}

/// The frame that refuses `syn`: flow reversed, RST and ACK set, sequence
/// number 0, acknowledging the SYN.
pub open spec fn rst_frame(syn_frame: Seq<u8>, syn: TcpSynInfo) -> Seq<u8> {
    reply_ethernet(syn_frame, syn.src_ip is V4) + ip_header(
        20,
        IP_PROTO_TCP,
        syn.dst_ip,
        syn.src_ip,
    ) + rst_segment(syn)
}

/// An echo reply message, its checksum field still zero.
pub open spec fn echo_reply_blank(echo: EchoModel, payload: Seq<u8>) -> Seq<u8> {
    seq![
        if echo.src_ip is V4 {
            ICMP_ECHO_REPLY
        } else {
            ICMPV6_ECHO_REPLY
        },
        0u8,
        0u8,
        0u8,
    ] + be_bytes(echo.id as nat, 2) + be_bytes(echo.seq as nat, 2) + payload
}

pub open spec fn echo_reply_message(echo: EchoModel, payload: Seq<u8>) -> Seq<u8> {
    let blank = echo_reply_blank(echo, payload);
    put16(
        blank,
        2,
        if echo.src_ip is V4 {
            checksum_of(blank)
        } else {
            transport_checksum_of(echo.dst_ip, echo.src_ip, IP_PROTO_ICMPV6, blank)
        },
    )
}

/// The frame that answers `echo` with `payload`: flow reversed, the guest's
/// own identifier and sequence number.
pub open spec fn echo_reply_frame(request: Seq<u8>, echo: EchoModel, payload: Seq<u8>) -> Seq<u8> {
    reply_ethernet(request, echo.src_ip is V4) + ip_header(
        8 + payload.len(),
        if echo.src_ip is V4 {
            IP_PROTO_ICMP
        } else {
            IP_PROTO_ICMPV6
        },
        echo.dst_ip,
        echo.src_ip,
    ) + echo_reply_message(echo, payload)
}

fn push_reply_ethernet(frame: &mut Vec<u8>, request: &[u8], is_v4: bool)
    requires
        request@.len() >= 12,
    ensures
        final(frame)@ == old(frame)@ + reply_ethernet(request@, is_v4),
{
    push_all(frame, slice_subrange(request, 6, 12));
    push_all(frame, slice_subrange(request, 0, 6));
    if is_v4 {
        frame.push(0x08);
        frame.push(0x00);
    } else {
        frame.push(0x86);
        frame.push(0xDD);
    }
    assert(frame@ =~= old(frame)@ + reply_ethernet(request@, is_v4));
}

fn push_ip_header(frame: &mut Vec<u8>, payload_len: usize, protocol: u8, src: IpAddr, dst: IpAddr)
    requires
        src.same_family(dst),
        payload_len + 20 <= usize::MAX,
    ensures
        final(frame)@ == old(frame)@ + ip_header(payload_len as nat, protocol, src, dst),
{
    broadcast use be_bytes_len;

    match src {
        IpAddr::V4(_) => {
            let mut ip: Vec<u8> = vec![0x45, 0];
            push_len16(&mut ip, 20 + payload_len);
            let ghost start = ip@;
            ip.push(0);
            ip.push(0);
            ip.push(0x40);
            ip.push(0);
            ip.push(64);
            ip.push(protocol);
            ip.push(0);
            ip.push(0);
            assert(start =~= seq![0x45u8, 0u8] + be_bytes(20 + payload_len as nat, 2));
            assert(ip@ =~= start + seq![0u8, 0u8, 0x40u8, 0u8, 64u8, protocol, 0u8, 0u8]);
            src.push_octets(&mut ip);
            dst.push_octets(&mut ip);
            let checksum: u16 = internet_checksum(ip.as_slice());
            write_u16(&mut ip, 10, checksum);
            push_all(frame, ip.as_slice());
        },
        IpAddr::V6(_) => {
            let mut ip: Vec<u8> = vec![0x60, 0, 0, 0];
            push_len16(&mut ip, payload_len);
            let ghost start = ip@;
            ip.push(protocol);
            ip.push(64);
            assert(start =~= seq![0x60u8, 0u8, 0u8, 0u8] + be_bytes(payload_len as nat, 2));
            assert(ip@ =~= start + seq![protocol, 64u8]);
            src.push_octets(&mut ip);
            dst.push_octets(&mut ip);
            push_all(frame, ip.as_slice());
        },
    }
}

/// Builds the RST answering a denied SYN, as a complete ethernet frame in the
/// SYN's address family. `None` where `syn_frame` has no ethernet header or
/// `syn` mixes address families.
pub fn synthesize_rst(syn_frame: &[u8], syn: &TcpSynInfo) -> (rst: Option<Vec<u8>>)
    ensures
        match rst {
            Some(frame) => syn_frame@.len() >= 14 && syn.src_ip.same_family(syn.dst_ip) && frame@
                == rst_frame(syn_frame@, *syn),
            None => syn_frame@.len() < 14 || !syn.src_ip.same_family(syn.dst_ip),
        },
{
    broadcast use be_bytes_len;

    if syn_frame.len() < 14 {
        return None;
    }
    let is_v4: bool = match (syn.dst_ip, syn.src_ip) {
        (IpAddr::V4(_), IpAddr::V4(_)) => true,
        (IpAddr::V6(_), IpAddr::V6(_)) => false,
        _ => {
            return None;
        },
    };
    let mut tcp: Vec<u8> = Vec::new();
    push_u16(&mut tcp, syn.dst_port);
    push_u16(&mut tcp, syn.src_port);
    push_u32(&mut tcp, 0);
    push_u32(&mut tcp, syn.seq.wrapping_add(1));
    let ghost start = tcp@;
    tcp.push(0x50);
    tcp.push(0x14);
    tcp.push(0);
    tcp.push(0);
    tcp.push(0);
    tcp.push(0);
    tcp.push(0);
    tcp.push(0);
    proof {
        be_bytes_four(0);
        be_bytes_four((syn.seq + 1) as nat);
        be_bytes_four(syn.seq.wrapping_add(1) as nat);
        assert(be_bytes(0, 4) =~= seq![0u8, 0u8, 0u8, 0u8]);
        assert(be_bytes((syn.seq + 1) as nat, 4) =~= be_bytes(
            syn.seq.wrapping_add(1) as nat,
            4,
        ));
        assert(start =~= be_bytes(syn.dst_port as nat, 2) + be_bytes(syn.src_port as nat, 2)
            + seq![0u8, 0u8, 0u8, 0u8] + be_bytes((syn.seq + 1) as nat, 4));
        assert(tcp@ =~= start + seq![0x50u8, 0x14u8, 0u8, 0u8, 0u8, 0u8, 0u8, 0u8]);
    }
    let checksum: u16 = tcp_checksum(syn.dst_ip, syn.src_ip, tcp.as_slice());
    write_u16(&mut tcp, 16, checksum);
    let mut frame: Vec<u8> = Vec::new();
    push_reply_ethernet(&mut frame, syn_frame, is_v4);
    push_ip_header(&mut frame, 20, IP_PROTO_TCP, syn.dst_ip, syn.src_ip);
    push_all(&mut frame, tcp.as_slice());
    assert(frame@ =~= rst_frame(syn_frame@, *syn));
    Some(frame)
}

/// Builds the echo-reply frame answering `echo`, carrying `payload` (the
/// bytes that the real destination echoed) with the guest's own id and
/// sequence number. The request frame supplies the MACs to reverse.
pub fn synthesize_echo_reply(request_frame: &[u8], echo: &IcmpEchoInfo, payload: &[u8]) -> (frame:
    Vec<u8>)
    requires
        request_frame@.len() >= 12,
        echo.src_ip.same_family(echo.dst_ip),
        payload@.len() + 28 <= usize::MAX,
    ensures
        frame@ == echo_reply_frame(request_frame@, echo@, payload@),
{
    broadcast use be_bytes_len;

    let (is_v4, kind, protocol): (bool, u8, u8) = match echo.src_ip {
        IpAddr::V4(_) => (true, ICMP_ECHO_REPLY, IP_PROTO_ICMP),
        IpAddr::V6(_) => (false, ICMPV6_ECHO_REPLY, IP_PROTO_ICMPV6),
    };
    let mut message: Vec<u8> = vec![kind, 0, 0, 0];
    push_u16(&mut message, echo.id);
    push_u16(&mut message, echo.seq);
    push_all(&mut message, payload);
    assert(message@ =~= echo_reply_blank(echo@, payload@));
    let checksum: u16 = if is_v4 {
        internet_checksum(message.as_slice())
    } else {
        transport_checksum(echo.dst_ip, echo.src_ip, IP_PROTO_ICMPV6, message.as_slice())
    };
    write_u16(&mut message, 2, checksum);
    let mut frame: Vec<u8> = Vec::new();
    push_reply_ethernet(&mut frame, request_frame, is_v4);
    push_ip_header(&mut frame, 8 + payload.len(), protocol, echo.dst_ip, echo.src_ip);
    push_all(&mut frame, message.as_slice());
    assert(frame@ =~= echo_reply_frame(request_frame@, echo@, payload@));
    frame
}

// ---------------------------------------------------------------------------
// Laws
// ---------------------------------------------------------------------------

/// Writing a word over a zero word adds it to the word sum.
proof fn word_sum_of_put16(bytes: Seq<u8>, at: int, value: u16)
    requires
        0 <= at,
        at % 2 == 0,
        at + 2 <= bytes.len(),
        bytes[at] == 0,
        bytes[at + 1] == 0,
    ensures
        word_sum(put16(bytes, at, value)) == word_sum(bytes) + value,
    decreases at,
{
    let written = put16(bytes, at, value);
    if at == 0 {
        assert(written.skip(2) =~= bytes.skip(2));
    } else {
        assert(written.skip(2) =~= put16(bytes.skip(2), at - 2, value));
        word_sum_of_put16(bytes.skip(2), at - 2, value);
    }
}

/// Writing the checksum of `bytes` over a zero word of theirs makes the whole
/// verify: the checksum of the result is 0.
pub proof fn sealed_bytes_verify(bytes: Seq<u8>, at: int)
    requires
        0 <= at,
        at % 2 == 0,
        at + 2 <= bytes.len(),
        bytes[at] == 0,
        bytes[at + 1] == 0,
    ensures
        checksum_of(put16(bytes, at, checksum_of(bytes))) == 0,
{
    let sum = word_sum(bytes);
    word_sum_of_put16(bytes, at, checksum_of(bytes));
    let total = sum + checksum_of(bytes) as nat;
    if sum > 0 {
        let k = (sum - 1) / 65535;
        assert(total == 65535 * (k + 1));
        assert((total - 1) % 65535 == 65534) by (nonlinear_arith)
            requires
                total == 65535 * (k + 1),
                k >= 0,
        ;
    }
    assert(carry_folded(total) == 65535);
}

/// The same for a transport segment sealed with its pseudo-header.
pub proof fn sealed_segment_verifies(
    src: IpAddr,
    dst: IpAddr,
    protocol: u8,
    segment: Seq<u8>,
    at: int,
)
    requires
        src.same_family(dst),
        0 <= at,
        at % 2 == 0,
        at + 2 <= segment.len(),
        segment[at] == 0,
        segment[at + 1] == 0,
    ensures
        transport_checksum_of(
            src,
            dst,
            protocol,
            put16(segment, at, transport_checksum_of(src, dst, protocol, segment)),
        ) == 0,
{
    broadcast use be_bytes_len;

    let pseudo = pseudo_header(src, dst, protocol, segment.len());
    let checksum = checksum_of(pseudo + segment);
    sealed_bytes_verify(pseudo + segment, pseudo.len() + at);
    assert(put16(pseudo + segment, pseudo.len() + at, checksum) =~= pseudo + put16(
        segment,
        at,
        checksum,
    ));
}

/// An IPv4 header that the egress gate writes verifies.
pub proof fn ipv4_header_verifies(payload_len: nat, protocol: u8, src: IpAddr, dst: IpAddr)
    requires
        src is V4,
        dst is V4,
    ensures
        ip_header(payload_len, protocol, src, dst).len() == 20,
        checksum_of(ip_header(payload_len, protocol, src, dst)) == 0,
{
    broadcast use be_bytes_len;

    sealed_bytes_verify(ipv4_header_blank(payload_len, protocol, src, dst), 10);
}

/// How long an IP header is that the egress gate writes.
pub open spec fn ip_header_len(is_v4: bool) -> int {
    if is_v4 {
        20
    } else {
        40
    }
}

/// Reading the octets of an address back gives the address.
proof fn octets_spell_the_address(ip: IpAddr)
    ensures
        ip matches IpAddr::V4(bits) ==> be_value(ip.octets()) == bits && ip.octets().len() == 4,
        ip matches IpAddr::V6(bits) ==> be_value(ip.octets()) == bits && ip.octets().len() == 16,
{
    broadcast use be_bytes_len;

    match ip {
        IpAddr::V4(bits) => {
            reveal_with_fuel(byte_range, 5);
            be_value_of_be_bytes(bits as nat, 4);
        },
        IpAddr::V6(bits) => {
            reveal_with_fuel(byte_range, 17);
            be_value_of_be_bytes(bits as nat, 16);
        },
    }
}

/// A frame that the egress gate puts together parses back to the IP packet that it
/// was made for.
proof fn reply_frame_parses(
    request: Seq<u8>,
    protocol: u8,
    src: IpAddr,
    dst: IpAddr,
    payload_len: nat,
    payload: Seq<u8>,
)
    requires
        request.len() >= 12,
        src.same_family(dst),
    ensures
        ({
            let frame = reply_ethernet(request, src is V4) + ip_header(
                payload_len,
                protocol,
                src,
                dst,
            ) + payload;
            let at = 14 + ip_header_len(src is V4);
            &&& frame.len() == at + payload.len()
            &&& frame.skip(at) == payload
            &&& ip_packet_in(frame) == Some(
                IpPacket { src, dst, protocol, payload_at: at as usize },
            )
        }),
{
    broadcast use be_bytes_len;

    let ethernet = reply_ethernet(request, src is V4);
    let header = ip_header(payload_len, protocol, src, dst);
    let frame = ethernet + header + payload;
    let at = 14 + ip_header_len(src is V4);
    assert(ethernet.len() == 14);
    assert(header.len() == ip_header_len(src is V4));
    assert(frame.skip(at) =~= payload);
    octets_spell_the_address(src);
    octets_spell_the_address(dst);
    if src is V4 {
        assert(frame[14] == header[0] && header[0] == 0x45);
        assert(frame.subrange(26, 30) =~= src.octets());
        assert(frame.subrange(30, 34) =~= dst.octets());
        assert(frame[23] == header[9]);
    } else {
        assert(frame[14] == header[0] && header[0] == 0x60);
        assert(frame.subrange(22, 38) =~= src.octets());
        assert(frame.subrange(38, 54) =~= dst.octets());
        assert(frame[20] == header[6]);
    }
}

/// The RST goes back the way the SYN came, verifies, and opens nothing
/// itself: addresses, ports and MACs are reversed, RST and ACK are set, the
/// SYN is acknowledged, and both checksums come out at 0.
pub proof fn rst_answers_the_syn(syn_frame: Seq<u8>, syn: TcpSynInfo)
    requires
        syn_frame.len() >= 14,
        syn.src_ip.same_family(syn.dst_ip),
    ensures
        ({
            let rst = rst_frame(syn_frame, syn);
            let at = 14 + ip_header_len(syn.src_ip is V4);
            let tcp = rst.skip(at);
            &&& rst.subrange(0, 6) == syn_frame.subrange(6, 12)
            &&& rst.subrange(6, 12) == syn_frame.subrange(0, 6)
            &&& ip_packet_in(rst) == Some(
                IpPacket {
                    src: syn.dst_ip,
                    dst: syn.src_ip,
                    protocol: IP_PROTO_TCP,
                    payload_at: at as usize,
                },
            )
            &&& tcp.len() == 20
            &&& be_value(tcp.subrange(0, 2)) == syn.dst_port
            &&& be_value(tcp.subrange(2, 4)) == syn.src_port
            &&& be_value(tcp.subrange(8, 12)) == (syn.seq + 1) % 0x1_0000_0000
            &&& tcp[13] == TCP_FLAG_RST | TCP_FLAG_ACK
            &&& syn.src_ip is V4 ==> checksum_of(rst.subrange(14, 34)) == 0
            &&& transport_checksum_of(syn.dst_ip, syn.src_ip, IP_PROTO_TCP, tcp) == 0
            &&& tcp_syn_in(rst) is None
        }),
{
    broadcast use be_bytes_len;

    let rst = rst_frame(syn_frame, syn);
    let at = 14 + ip_header_len(syn.src_ip is V4);
    let blank = rst_segment_blank(syn);
    let tcp = rst_segment(syn);
    reply_frame_parses(syn_frame, IP_PROTO_TCP, syn.dst_ip, syn.src_ip, 20, tcp);
    sealed_segment_verifies(syn.dst_ip, syn.src_ip, IP_PROTO_TCP, blank, 16);
    let header = ip_header(20, IP_PROTO_TCP, syn.dst_ip, syn.src_ip);
    if syn.src_ip is V4 {
        ipv4_header_verifies(20, IP_PROTO_TCP, syn.dst_ip, syn.src_ip);
        assert(rst.subrange(14, 34) =~= header);
    }
    assert(rst.subrange(0, 6) =~= syn_frame.subrange(6, 12));
    assert(rst.subrange(6, 12) =~= syn_frame.subrange(0, 6));
    reveal_with_fuel(byte_range, 5);
    let ack = (syn.seq + 1) as nat % 0x1_0000_0000;
    be_value_of_be_bytes(syn.dst_port as nat, 2);
    be_value_of_be_bytes(syn.src_port as nat, 2);
    be_value_of_be_bytes(ack, 4);
    be_bytes_four(ack);
    be_bytes_four((syn.seq + 1) as nat);
    assert(be_bytes(ack, 4) =~= be_bytes((syn.seq + 1) as nat, 4));
    assert(tcp.subrange(0, 2) =~= be_bytes(syn.dst_port as nat, 2));
    assert(tcp.subrange(2, 4) =~= be_bytes(syn.src_port as nat, 2));
    assert(tcp.subrange(8, 12) =~= be_bytes((syn.seq + 1) as nat, 4));
    assert(tcp[13] == 0x14);
    assert(rst[at + 13] == rst.skip(at)[13]);
    assert(0x14u8 == TCP_FLAG_RST | TCP_FLAG_ACK && !opens_connection(0x14u8)) by (bit_vector);
}

/// The echo reply goes back the way the request came, carries the guest's own
/// id and sequence number and the given payload, verifies, and is not itself
/// taken for a request.
pub proof fn echo_reply_answers_the_request(request: Seq<u8>, echo: EchoModel, payload: Seq<u8>)
    requires
        request.len() >= 12,
        echo.src_ip.same_family(echo.dst_ip),
    ensures
        ({
            let reply = echo_reply_frame(request, echo, payload);
            let is_v4 = echo.src_ip is V4;
            let at = 14 + ip_header_len(is_v4);
            let message = reply.skip(at);
            &&& reply.subrange(0, 6) == request.subrange(6, 12)
            &&& reply.subrange(6, 12) == request.subrange(0, 6)
            &&& ip_packet_in(reply) == Some(
                IpPacket {
                    src: echo.dst_ip,
                    dst: echo.src_ip,
                    protocol: if is_v4 {
                        IP_PROTO_ICMP
                    } else {
                        IP_PROTO_ICMPV6
                    },
                    payload_at: at as usize,
                },
            )
            &&& message.len() == 8 + payload.len()
            &&& message[0] == if is_v4 {
                ICMP_ECHO_REPLY
            } else {
                ICMPV6_ECHO_REPLY
            }
            &&& be_value(message.subrange(4, 6)) == echo.id
            &&& be_value(message.subrange(6, 8)) == echo.seq
            &&& message.skip(8) == payload
            &&& is_v4 ==> checksum_of(reply.subrange(14, 34)) == 0 && checksum_of(message) == 0
            &&& !is_v4 ==> transport_checksum_of(
                echo.dst_ip,
                echo.src_ip,
                IP_PROTO_ICMPV6,
                message,
            ) == 0
            &&& echo_request_in(reply) is None
        }),
{
    broadcast use be_bytes_len;

    let reply = echo_reply_frame(request, echo, payload);
    let is_v4 = echo.src_ip is V4;
    let at = 14 + ip_header_len(is_v4);
    let protocol = if is_v4 {
        IP_PROTO_ICMP
    } else {
        IP_PROTO_ICMPV6
    };
    let blank = echo_reply_blank(echo, payload);
    let message = echo_reply_message(echo, payload);
    let len = 8 + payload.len();
    reply_frame_parses(request, protocol, echo.dst_ip, echo.src_ip, len, message);
    if is_v4 {
        sealed_bytes_verify(blank, 2);
        ipv4_header_verifies(len, protocol, echo.dst_ip, echo.src_ip);
        assert(reply.subrange(14, 34) =~= ip_header(len, protocol, echo.dst_ip, echo.src_ip));
    } else {
        sealed_segment_verifies(echo.dst_ip, echo.src_ip, IP_PROTO_ICMPV6, blank, 2);
    }
    assert(reply.subrange(0, 6) =~= request.subrange(6, 12));
    assert(reply.subrange(6, 12) =~= request.subrange(0, 6));
    reveal_with_fuel(byte_range, 3);
    be_value_of_be_bytes(echo.id as nat, 2);
    be_value_of_be_bytes(echo.seq as nat, 2);
    assert(message.subrange(4, 6) =~= be_bytes(echo.id as nat, 2));
    assert(message.subrange(6, 8) =~= be_bytes(echo.seq as nat, 2));
    assert(message.skip(8) =~= payload);
    assert(reply[at] == reply.skip(at)[0]);
}

/// A frame is at most one of a SYN, a UDP datagram and an echo request, so
/// the order in which the egress gate peeks does not matter.
pub proof fn peeks_exclude_each_other(frame: Seq<u8>)
    ensures
        tcp_syn_in(frame) is Some ==> udp_in(frame) is None && echo_request_in(frame) is None,
        udp_in(frame) is Some ==> tcp_syn_in(frame) is None && echo_request_in(frame) is None,
        echo_request_in(frame) is Some ==> tcp_syn_in(frame) is None && udp_in(frame) is None,
{
}

/// What the egress gate peeks never mixes address families, so a RST or an echo
/// reply can always be made for it.
pub proof fn peeked_flows_have_one_family(frame: Seq<u8>)
    ensures
        tcp_syn_in(frame) matches Some(syn) ==> frame.len() >= 14 && syn.src_ip.same_family(
            syn.dst_ip,
        ),
        udp_in(frame) matches Some(udp) ==> udp.src_ip.same_family(udp.dst_ip),
        echo_request_in(frame) matches Some(echo) ==> frame.len() >= 14
            && echo.src_ip.same_family(echo.dst_ip),
{
}

} // verus!
