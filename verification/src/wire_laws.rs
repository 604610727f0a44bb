//! What holds of frames on the wire, told in terms of their bytes.

use vstd::prelude::*;
use crate::bytes::{
    be_bytes, be_bytes_len, be_bytes_of_be_value, be_bytes_two, be_value, be_value_four,
    be_value_of_be_bytes, be_value_two, byte_range,
};
use crate::ip::IpAddr;
use crate::wire::{
    checksum_of, echo_request_in, ip_packet_in, pseudo_header, tcp_syn_in,
    transport_checksum_of, udp_in, word_sum, EchoModel, IpPacket, TcpSynInfo, UdpInfo,
};
use crate::wire_reply::{
    echo_reply_answers_the_request, echo_reply_frame, ip_header, rst_answers_the_syn, rst_frame,
};

verus! {

/// Whether `frame` is an ethernet frame with an IP packet from `src` to `dst`
/// that carries `payload` for `protocol`. Over IPv4 the header may have
/// options; its length stands in its first byte, in words of four bytes.
pub open spec fn carries(
    frame: Seq<u8>,
    src: IpAddr,
    dst: IpAddr,
    protocol: u8,
    payload: Seq<u8>,
) -> bool {
    let at = frame.len() - payload.len();
    &&& at >= 0
    &&& frame.skip(at) == payload
    &&& match (src, dst) {
        (IpAddr::V4(from), IpAddr::V4(to)) => {
            &&& 34 <= at <= 74
            &&& frame[12] == 0x08
            &&& frame[13] == 0x00
            &&& at == 14 + 4 * (frame[14] - 64)
            &&& frame[23] == protocol
            &&& frame.subrange(26, 30) == be_bytes(from as nat, 4)
            &&& frame.subrange(30, 34) == be_bytes(to as nat, 4)
        },
        (IpAddr::V6(from), IpAddr::V6(to)) => {
            &&& at == 54
            &&& frame[12] == 0x86
            &&& frame[13] == 0xDD
            &&& 96 <= frame[14] < 112
            &&& frame[20] == protocol
            &&& frame.subrange(22, 38) == be_bytes(from as nat, 16)
            &&& frame.subrange(38, 54) == be_bytes(to as nat, 16)
        },
        _ => false,
    }
}

/// The number in the two bytes of `bytes` at `at`.
pub open spec fn word_at(bytes: Seq<u8>, at: int) -> int {
    bytes[at] * 256 + bytes[at + 1]
}

proof fn word_is_value(bytes: Seq<u8>, at: int)
    requires
        0 <= at,
        at + 2 <= bytes.len(),
    ensures
        be_value(bytes.subrange(at, at + 2)) == word_at(bytes, at),
        0 <= word_at(bytes, at) < 65536,
{
    be_value_two(bytes.subrange(at, at + 2));
}

/// A carried packet is found, with its addresses, its protocol and its place.
proof fn carried_packet_is_found(
    frame: Seq<u8>,
    src: IpAddr,
    dst: IpAddr,
    protocol: u8,
    payload: Seq<u8>,
)
    requires
        carries(frame, src, dst, protocol, payload),
    ensures
        ip_packet_in(frame) == Some(
            IpPacket {
                src,
                dst,
                protocol,
                payload_at: (frame.len() - payload.len()) as usize,
            },
        ),
{
    match (src, dst) {
        (IpAddr::V4(from), IpAddr::V4(to)) => {
            reveal_with_fuel(byte_range, 5);
            be_value_of_be_bytes(from as nat, 4);
            be_value_of_be_bytes(to as nat, 4);
        },
        (IpAddr::V6(from), IpAddr::V6(to)) => {
            reveal_with_fuel(byte_range, 17);
            be_value_of_be_bytes(from as nat, 16);
            be_value_of_be_bytes(to as nat, 16);
        },
        _ => {},
    }
}

/// A packet that is found is carried.
proof fn found_packet_is_carried(frame: Seq<u8>)
    requires
        ip_packet_in(frame) is Some,
    ensures
        ({
            let packet = ip_packet_in(frame)->0;
            &&& packet.payload_at <= frame.len()
            &&& carries(
                frame,
                packet.src,
                packet.dst,
                packet.protocol,
                frame.skip(packet.payload_at as int),
            )
        }),
{
    let packet = ip_packet_in(frame)->0;
    match packet.src {
        IpAddr::V4(_) => {
            reveal_with_fuel(byte_range, 5);
            be_value_four(frame.subrange(26, 30));
            be_value_four(frame.subrange(30, 34));
            be_bytes_of_be_value(frame.subrange(26, 30));
            be_bytes_of_be_value(frame.subrange(30, 34));
        },
        IpAddr::V6(_) => {
            reveal_with_fuel(byte_range, 17);
            crate::bytes::be_value_bound(frame.subrange(22, 38));
            crate::bytes::be_value_bound(frame.subrange(38, 54));
            be_bytes_of_be_value(frame.subrange(22, 38));
            be_bytes_of_be_value(frame.subrange(38, 54));
        },
    }
}

/// UDP datagrams are peeked exactly, in both families: a frame that carries
/// protocol 17 with at least a UDP header peeks to its addresses and to the
/// two words in front as ports; and whatever peeks is such a frame.
pub proof fn datagrams_are_peeked_exactly(
    frame: Seq<u8>,
    src: IpAddr,
    dst: IpAddr,
    payload: Seq<u8>,
)
    ensures
        carries(frame, src, dst, 17, payload) && payload.len() >= 8 ==> udp_in(frame) == Some(
            UdpInfo {
                src_ip: src,
                dst_ip: dst,
                src_port: word_at(payload, 0) as u16,
                dst_port: word_at(payload, 2) as u16,
            },
        ),
        udp_in(frame) matches Some(info) ==> exists|datagram: Seq<u8>|
            #[trigger] carries(frame, info.src_ip, info.dst_ip, 17, datagram) && datagram.len()
                >= 8 && info.src_port == word_at(datagram, 0) && info.dst_port == word_at(
                datagram,
                2,
            ),
{
    if carries(frame, src, dst, 17, payload) && payload.len() >= 8 {
        let at = frame.len() - payload.len();
        carried_packet_is_found(frame, src, dst, 17, payload);
        assert(frame.subrange(at, at + 2) =~= payload.subrange(0, 2));
        assert(frame.subrange(at + 2, at + 4) =~= payload.subrange(2, 4));
        word_is_value(payload, 0);
        word_is_value(payload, 2);
    }
    if udp_in(frame) is Some {
        let packet = ip_packet_in(frame)->0;
        let at = packet.payload_at as int;
        let datagram = frame.skip(at);
        found_packet_is_carried(frame);
        word_is_value(frame, at);
        word_is_value(frame, at + 2);
        assert(carries(frame, packet.src, packet.dst, 17, datagram));
    }
}

proof fn flag_bits(flags: u8)
    ensures
        crate::wire::opens_connection(flags) == (flags / 2 % 2 == 1 && flags / 4 % 2 == 0 && flags
            / 16 % 2 == 0),
{
    assert((flags & 0x02 != 0) == (flags / 2 % 2 == 1)) by (bit_vector);
    assert((flags & 0x04 != 0) == (flags / 4 % 2 == 1)) by (bit_vector);
    assert((flags & 0x10 != 0) == (flags / 16 % 2 == 1)) by (bit_vector);
}

/// Connection attempts are peeked exactly, in both families: a frame that
/// carries protocol 6 with at least a TCP header, in whose flags SYN (bit 1) is
/// set and RST (bit 2) and ACK (bit 4) are clear, peeks to its addresses,
/// ports and sequence number; and whatever peeks is such a frame.
pub proof fn connection_attempts_are_peeked_exactly(
    frame: Seq<u8>,
    src: IpAddr,
    dst: IpAddr,
    payload: Seq<u8>,
)
    ensures
        carries(frame, src, dst, 6, payload) && payload.len() >= 20 && payload[13] / 2 % 2 == 1
            && payload[13] / 4 % 2 == 0 && payload[13] / 16 % 2 == 0 ==> tcp_syn_in(frame) == Some(
            TcpSynInfo {
                src_ip: src,
                dst_ip: dst,
                src_port: word_at(payload, 0) as u16,
                dst_port: word_at(payload, 2) as u16,
                seq: (word_at(payload, 4) * 65536 + word_at(payload, 6)) as u32,
            },
        ),
        tcp_syn_in(frame) matches Some(syn) ==> exists|segment: Seq<u8>|
            #[trigger] carries(frame, syn.src_ip, syn.dst_ip, 6, segment) && segment.len() >= 20
                && segment[13] / 2 % 2 == 1 && segment[13] / 4 % 2 == 0 && segment[13] / 16 % 2
                == 0 && syn.src_port == word_at(segment, 0) && syn.dst_port == word_at(segment, 2)
                && syn.seq == word_at(segment, 4) * 65536 + word_at(segment, 6),
{
    if carries(frame, src, dst, 6, payload) && payload.len() >= 20 {
        let at = frame.len() - payload.len();
        carried_packet_is_found(frame, src, dst, 6, payload);
        flag_bits(payload[13]);
        assert(frame[at + 13] == frame.skip(at)[13]);
        assert(frame.subrange(at, at + 2) =~= payload.subrange(0, 2));
        assert(frame.subrange(at + 2, at + 4) =~= payload.subrange(2, 4));
        assert(frame.subrange(at + 4, at + 8) =~= payload.subrange(4, 8));
        word_is_value(payload, 0);
        word_is_value(payload, 2);
        be_value_four(payload.subrange(4, 8));
    }
    if tcp_syn_in(frame) is Some {
        let packet = ip_packet_in(frame)->0;
        let at = packet.payload_at as int;
        let segment = frame.skip(at);
        found_packet_is_carried(frame);
        flag_bits(frame[at + 13]);
        word_is_value(frame, at);
        word_is_value(frame, at + 2);
        be_value_four(frame.subrange(at + 4, at + 8));
        assert(carries(frame, packet.src, packet.dst, 6, segment));
    }
}

/// The number of the protocol that pings of the family of `ip` belong to.
pub open spec fn ping_number(ip: IpAddr) -> u8 {
    match ip {
        IpAddr::V4(_) => 1,
        IpAddr::V6(_) => 58,
    }
}

/// Echo requests are peeked exactly: type 8 of protocol 1 over IPv4, type 128
/// of protocol 58 over IPv6, code 0 in both, with the id, the sequence number
/// and all that stands behind them; and whatever peeks is such a frame.
pub proof fn pings_are_peeked_exactly(
    frame: Seq<u8>,
    src: IpAddr,
    dst: IpAddr,
    payload: Seq<u8>,
)
    ensures
        payload.len() >= 8 && payload[1] == 0 && ((src is V4 && carries(frame, src, dst, 1, payload)
            && payload[0] == 8) || (src is V6 && carries(frame, src, dst, 58, payload)
            && payload[0] == 128)) ==> echo_request_in(frame) == Some(
            EchoModel {
                src_ip: src,
                dst_ip: dst,
                id: word_at(payload, 4) as u16,
                seq: word_at(payload, 6) as u16,
                payload: payload.skip(8),
            },
        ),
        echo_request_in(frame) matches Some(echo) ==> exists|message: Seq<u8>|
            #[trigger] carries(frame, echo.src_ip, echo.dst_ip, ping_number(echo.src_ip), message)
                && message.len() >= 8 && message[0] == (if echo.src_ip is V4 {
                8u8
            } else {
                128u8
            }) && message[1] == 0 && echo.id == word_at(message, 4) && echo.seq == word_at(
                message,
                6,
            ) && echo.payload == message.skip(8),
{
    let number = ping_number(src);
    if payload.len() >= 8 && carries(frame, src, dst, number, payload) {
        let at = frame.len() - payload.len();
        carried_packet_is_found(frame, src, dst, number, payload);
        assert(frame[at] == frame.skip(at)[0]);
        assert(frame[at + 1] == frame.skip(at)[1]);
        assert(frame.subrange(at + 4, at + 6) =~= payload.subrange(4, 6));
        assert(frame.subrange(at + 6, at + 8) =~= payload.subrange(6, 8));
        assert(frame.skip(at + 8) =~= payload.skip(8));
        word_is_value(payload, 4);
        word_is_value(payload, 6);
    }
    if echo_request_in(frame) is Some {
        let packet = ip_packet_in(frame)->0;
        let at = packet.payload_at as int;
        let message = frame.skip(at);
        found_packet_is_carried(frame);
        word_is_value(frame, at + 4);
        word_is_value(frame, at + 6);
        assert(message.skip(8) =~= frame.skip(at + 8));
        assert(carries(frame, packet.src, packet.dst, ping_number(packet.src), message));
    }
}

/// A frame that carries no IP packet, or one of another protocol, peeks to
/// nothing.
pub proof fn other_frames_peek_to_nothing(
    frame: Seq<u8>,
    src: IpAddr,
    dst: IpAddr,
    protocol: u8,
    payload: Seq<u8>,
)
    requires
        frame.len() < 34 || !(frame[12] == 0x08 && frame[13] == 0x00 || frame[12] == 0x86
            && frame[13] == 0xDD) || (carries(frame, src, dst, protocol, payload) && protocol != 6
            && protocol != 17 && protocol != ping_number(src)),
    ensures
        tcp_syn_in(frame) is None,
        udp_in(frame) is None,
        echo_request_in(frame) is None,
{
    if carries(frame, src, dst, protocol, payload) {
        carried_packet_is_found(frame, src, dst, protocol, payload);
    }
}

/// An ethernet frame around an IP packet without options: `macs` are the two
/// hardware addresses, destination first.
pub open spec fn plain_frame(
    macs: Seq<u8>,
    src: IpAddr,
    dst: IpAddr,
    protocol: u8,
    payload: Seq<u8>,
) -> Seq<u8> {
    match (src, dst) {
        (IpAddr::V4(from), IpAddr::V4(to)) => macs + seq![0x08u8, 0x00u8, 0x45u8, 0u8] + be_bytes(
            20 + payload.len(),
            2,
        ) + seq![0u8, 0u8, 0u8, 0u8, 64u8, protocol, 0u8, 0u8] + be_bytes(from as nat, 4)
            + be_bytes(to as nat, 4) + payload,
        (IpAddr::V6(from), IpAddr::V6(to)) => macs + seq![
            0x86u8,
            0xDDu8,
            0x60u8,
            0u8,
            0u8,
            0u8,
        ] + be_bytes(payload.len(), 2) + seq![protocol, 64u8] + be_bytes(from as nat, 16)
            + be_bytes(to as nat, 16) + payload,
        _ => payload,
    }
}

/// A frame that is put together carries what it was put together from.
pub proof fn plain_frames_carry_their_payload(
    macs: Seq<u8>,
    src: IpAddr,
    dst: IpAddr,
    protocol: u8,
    payload: Seq<u8>,
)
    requires
        macs.len() == 12,
        src is V4 <==> dst is V4,
    ensures
        carries(plain_frame(macs, src, dst, protocol, payload), src, dst, protocol, payload),
{
    broadcast use be_bytes_len;

    let frame = plain_frame(macs, src, dst, protocol, payload);
    let at = frame.len() - payload.len();
    assert(frame.skip(at) =~= payload);
    match (src, dst) {
        (IpAddr::V4(from), IpAddr::V4(to)) => {
            assert(frame.subrange(26, 30) =~= be_bytes(from as nat, 4));
            assert(frame.subrange(30, 34) =~= be_bytes(to as nat, 4));
        },
        (IpAddr::V6(from), IpAddr::V6(to)) => {
            assert(frame.subrange(22, 38) =~= be_bytes(from as nat, 16));
            assert(frame.subrange(38, 54) =~= be_bytes(to as nat, 16));
        },
        _ => {},
    }
}

/// A datagram that is put together from any two addresses of one family, any
/// two ports and any data peeks back to exactly these.
pub proof fn datagrams_peek_back(
    macs: Seq<u8>,
    src: IpAddr,
    dst: IpAddr,
    src_port: u16,
    dst_port: u16,
    length_and_checksum: Seq<u8>,
    data: Seq<u8>,
)
    requires
        macs.len() == 12,
        src is V4 <==> dst is V4,
        length_and_checksum.len() == 4,
    ensures
        udp_in(
            plain_frame(
                macs,
                src,
                dst,
                17,
                be_bytes(src_port as nat, 2) + be_bytes(dst_port as nat, 2) + length_and_checksum
                    + data,
            ),
        ) == Some(UdpInfo { src_ip: src, dst_ip: dst, src_port, dst_port }),
{
    broadcast use be_bytes_len;

    let payload = be_bytes(src_port as nat, 2) + be_bytes(dst_port as nat, 2)
        + length_and_checksum + data;
    let frame = plain_frame(macs, src, dst, 17, payload);
    plain_frames_carry_their_payload(macs, src, dst, 17, payload);
    datagrams_are_peeked_exactly(frame, src, dst, payload);
    be_bytes_two(src_port as nat);
    be_bytes_two(dst_port as nat);
}

// ---------------------------------------------------------------------------
// Checksums
// ---------------------------------------------------------------------------

/// The words of bytes add up: a sum over an even number of bytes and more is
/// the sum over each; two bytes are one word, the first of them its high half,
/// and a last single byte is a high half.
pub proof fn words_add_up(front: Seq<u8>, back: Seq<u8>, high: u8, low: u8)
    requires
        front.len() % 2 == 0,
    ensures
        word_sum(front + back) == word_sum(front) + word_sum(back),
        word_sum(seq![high, low]) == high * 256 + low,
        word_sum(seq![high]) == high * 256,
        word_sum(Seq::empty()) == 0,
    decreases front.len(),
{
    reveal_with_fuel(word_sum, 3);
    let pair = seq![high, low];
    assert(pair.skip(2) =~= Seq::empty());
    if front.len() == 0 {
        assert(front + back =~= back);
    } else {
        assert((front + back).skip(2) =~= front.skip(2) + back);
        words_add_up(front.skip(2), back, high, low);
    }
}

/// A checksum complements the sum of the words: together they are a multiple
/// of 65535, and the checksum is 65535 only where there is nothing to sum.
pub proof fn checksums_complement_the_sum(bytes: Seq<u8>)
    ensures
        (word_sum(bytes) + checksum_of(bytes)) % 65535 == 0,
        checksum_of(bytes) == 65535 <==> word_sum(bytes) == 0,
{
    let sum = word_sum(bytes) as int;
    if sum > 0 {
        let k = (sum - 1) / 65535;
        assert(sum + checksum_of(bytes) == 65535 * (k + 1));
        assert((65535 * (k + 1)) % 65535 == 0) by (nonlinear_arith);
    }
}

/// The words of a number sum to the number, as far as a checksum can tell.
proof fn words_of_a_number(value: nat, pairs: nat)
    requires
        value < byte_range(2 * pairs),
    ensures
        word_sum(be_bytes(value, 2 * pairs)) % 65535 == value % 65535,
    decreases pairs,
{
    broadcast use be_bytes_len;

    if pairs == 0 {
        assert(word_sum(be_bytes(value, 0)) == 0);
        assert(value == 0);
    } else {
        let less = (pairs - 1) as nat;
        let high = value / 65536;
        reveal_with_fuel(byte_range, 3);
        assert(byte_range(2 * pairs) == 65536 * byte_range(2 * less));
        assert(high < byte_range(2 * less));
        words_of_a_number(high, less);
        let front = be_bytes(high, 2 * less);
        let back = seq![(value / 256 % 256) as u8, (value % 256) as u8];
        reveal_with_fuel(be_bytes, 3);
        assert(value / 256 / 256 == high);
        assert(be_bytes(value, 2 * pairs) =~= front + back);
        words_add_up(front, back, back[0], back[1]);
        assert(back =~= seq![back[0], back[1]]);
        let low = value % 65536;
        assert(word_sum(back) == low);
        assert(value == 65536 * high + low);
        let sum = word_sum(front);
        let a = sum / 65535;
        let b = high / 65535;
        assert(value == 65535 * (high + b - a) + (sum + low));
        vstd::arithmetic::div_mod::lemma_mod_multiples_vanish(
            high + b - a,
            (sum + low) as int,
            65535,
        );
    }
}

/// The number of an address.
pub open spec fn number_of(ip: IpAddr) -> nat {
    match ip {
        IpAddr::V4(bits) => bits as nat,
        IpAddr::V6(bits) => bits as nat,
    }
}

proof fn words_of_an_address(ip: IpAddr)
    ensures
        word_sum(ip.octets()) % 65535 == number_of(ip) % 65535,
        ip.octets().len() % 2 == 0,
{
    broadcast use be_bytes_len;

    match ip {
        IpAddr::V4(bits) => {
            reveal_with_fuel(byte_range, 5);
            words_of_a_number(bits as nat, 2);
        },
        IpAddr::V6(bits) => {
            reveal_with_fuel(byte_range, 17);
            words_of_a_number(bits as nat, 8);
        },
    }
}

proof fn same_remainder(a: nat, b: nat, rest: nat)
    requires
        a % 65535 == b % 65535,
    ensures
        (a + rest) % 65535 == (b + rest) % 65535,
{
    vstd::arithmetic::div_mod::lemma_add_mod_noop(a as int, rest as int, 65535);
    vstd::arithmetic::div_mod::lemma_add_mod_noop(b as int, rest as int, 65535);
}

/// The words of a pseudo-header sum to both addresses, the protocol and the
/// segment's length, as far as a checksum can tell.
proof fn words_of_a_pseudo_header(src: IpAddr, dst: IpAddr, protocol: u8, len: nat)
    requires
        src is V4 <==> dst is V4,
        len < 65536,
    ensures
        pseudo_header(src, dst, protocol, len).len() % 2 == 0,
        word_sum(pseudo_header(src, dst, protocol, len)) % 65535 == (number_of(src) + number_of(dst)
            + protocol + len) % 65535,
{
    broadcast use be_bytes_len;

    let from = src.octets();
    let to = dst.octets();
    words_of_an_address(src);
    words_of_an_address(dst);
    reveal_with_fuel(byte_range, 5);
    let tail = if src is V4 {
        seq![0u8, protocol] + be_bytes(len, 2)
    } else {
        be_bytes(len, 4) + seq![0u8, 0u8, 0u8, protocol]
    };
    assert(pseudo_header(src, dst, protocol, len) =~= from + (to + tail));
    words_add_up(from, to + tail, 0, 0);
    words_add_up(to, tail, 0, 0);
    assert(word_sum(tail) == protocol + len) by {
        be_bytes_two(len);
        crate::bytes::be_bytes_four(len);
        words_add_up(seq![0u8, protocol], be_bytes(len, 2), 0, protocol);
        words_add_up(
            seq![(len / 256 % 256) as u8, (len % 256) as u8],
            Seq::empty(),
            (len / 256 % 256) as u8,
            (len % 256) as u8,
        );
        if !(src is V4) {
            let bytes = be_bytes(len, 4);
            assert(bytes =~= seq![0u8, 0u8] + be_bytes(len, 2));
            words_add_up(seq![0u8, 0u8], be_bytes(len, 2), 0, 0);
            words_add_up(bytes, seq![0u8, 0u8, 0u8, protocol], 0, 0);
            assert(seq![0u8, 0u8, 0u8, protocol] =~= seq![0u8, 0u8] + seq![0u8, protocol]);
            words_add_up(seq![0u8, 0u8], seq![0u8, protocol], 0, 0);
            words_add_up(seq![0u8, protocol], Seq::empty(), 0, protocol);
        }
    }
    same_remainder(word_sum(from), number_of(src), word_sum(to) + word_sum(tail));
    same_remainder(word_sum(to), number_of(dst), number_of(src) + word_sum(tail));
}

/// A transport checksum covers both addresses, the protocol, the length and
/// the whole segment: with the checksum they sum to a multiple of 65535.
pub proof fn transport_checksums_cover_the_segment(
    src: IpAddr,
    dst: IpAddr,
    protocol: u8,
    segment: Seq<u8>,
)
    requires
        src is V4 <==> dst is V4,
        segment.len() < 65536,
    ensures
        (number_of(src) + number_of(dst) + protocol + segment.len() + word_sum(segment)
            + transport_checksum_of(src, dst, protocol, segment)) % 65535 == 0,
{
    let pseudo = pseudo_header(src, dst, protocol, segment.len());
    words_of_a_pseudo_header(src, dst, protocol, segment.len());
    words_add_up(pseudo, segment, 0, 0);
    checksums_complement_the_sum(pseudo + segment);
    let checksum = transport_checksum_of(src, dst, protocol, segment) as nat;
    same_remainder(
        word_sum(pseudo),
        number_of(src) + number_of(dst) + protocol as nat + segment.len(),
        word_sum(segment) + checksum,
    );
}

// ---------------------------------------------------------------------------
// Frames that are written
// ---------------------------------------------------------------------------

/// An IP header that is written says, byte by byte: over IPv4, version 4 and
/// five words, the length of the whole packet, "do not fragment", 64 hops, the
/// protocol and the addresses; over IPv6, version 6, the length of what
/// follows, the protocol, 64 hops and the addresses.
pub proof fn written_headers_say(payload_len: nat, protocol: u8, src: IpAddr, dst: IpAddr)
    requires
        src is V4 <==> dst is V4,
        payload_len + 20 < 65536,
    ensures
        ({
            let header = ip_header(payload_len, protocol, src, dst);
            match (src, dst) {
                (IpAddr::V4(from), IpAddr::V4(to)) => {
                    &&& header.len() == 20
                    &&& header[0] == 0x45
                    &&& header[1] == 0
                    &&& word_at(header, 2) == 20 + payload_len
                    &&& word_at(header, 4) == 0
                    &&& word_at(header, 6) == 0x4000
                    &&& header[8] == 64
                    &&& header[9] == protocol
                    &&& word_sum(header) % 65535 == 0
                    &&& header.subrange(12, 16) == be_bytes(from as nat, 4)
                    &&& header.subrange(16, 20) == be_bytes(to as nat, 4)
                },
                (IpAddr::V6(from), IpAddr::V6(to)) => {
                    &&& header.len() == 40
                    &&& header[0] == 0x60
                    &&& header[1] == 0
                    &&& word_at(header, 2) == 0
                    &&& word_at(header, 4) == payload_len
                    &&& header[6] == protocol
                    &&& header[7] == 64
                    &&& header.subrange(8, 24) == be_bytes(from as nat, 16)
                    &&& header.subrange(24, 40) == be_bytes(to as nat, 16)
                },
                _ => false,
            }
        }),
{
    broadcast use be_bytes_len;

    let header = ip_header(payload_len, protocol, src, dst);
    be_bytes_two(20 + payload_len);
    be_bytes_two(payload_len);
    match (src, dst) {
        (IpAddr::V4(from), IpAddr::V4(to)) => {
            crate::wire_reply::ipv4_header_verifies(payload_len, protocol, src, dst);
            checksums_complement_the_sum(header);
            assert(header.subrange(12, 16) =~= be_bytes(from as nat, 4));
            assert(header.subrange(16, 20) =~= be_bytes(to as nat, 4));
        },
        (IpAddr::V6(from), IpAddr::V6(to)) => {
            assert(header.subrange(8, 24) =~= be_bytes(from as nat, 16));
            assert(header.subrange(24, 40) =~= be_bytes(to as nat, 16));
        },
        _ => {},
    }
}

/// The RST on the wire: sent back from the SYN's destination to its source,
/// between the same ports reversed; sequence number 0, the SYN's acknowledged;
/// five words of header; RST (4) and ACK (16) and no other flag; no window, no
/// urgent data, nothing behind; and its checksum complements all of it.
pub proof fn rst_on_the_wire(syn_frame: Seq<u8>, syn: TcpSynInfo, segment: Seq<u8>)
    requires
        syn_frame.len() >= 14,
        syn.src_ip is V4 <==> syn.dst_ip is V4,
        segment == rst_frame(syn_frame, syn).skip(
            if syn.src_ip is V4 {
                34
            } else {
                54
            },
        ),
    ensures
        carries(rst_frame(syn_frame, syn), syn.dst_ip, syn.src_ip, 6, segment),
        rst_frame(syn_frame, syn).subrange(0, 12) == syn_frame.subrange(6, 12)
            + syn_frame.subrange(0, 6),
        segment.len() == 20,
        word_at(segment, 0) == syn.dst_port,
        word_at(segment, 2) == syn.src_port,
        word_at(segment, 4) == 0 && word_at(segment, 6) == 0,
        word_at(segment, 8) * 65536 + word_at(segment, 10) == (if syn.seq == u32::MAX {
            0
        } else {
            syn.seq + 1
        }),
        segment[12] == 0x50,
        segment[13] == 4 + 16,
        word_at(segment, 14) == 0 && word_at(segment, 18) == 0,
        (number_of(syn.src_ip) + number_of(syn.dst_ip) + 6 + 20 + word_sum(segment)) % 65535 == 0,
{
    broadcast use be_bytes_len;

    let rst = rst_frame(syn_frame, syn);
    rst_answers_the_syn(syn_frame, syn);
    found_packet_is_carried(rst);
    be_bytes_two(syn.dst_port as nat);
    be_bytes_two(syn.src_port as nat);
    crate::bytes::be_bytes_four((syn.seq + 1) as nat);
    assert(segment =~= crate::wire_reply::rst_segment(syn));
    assert(rst.subrange(0, 12) =~= syn_frame.subrange(6, 12) + syn_frame.subrange(0, 6));
    transport_checksums_cover_the_segment(syn.dst_ip, syn.src_ip, 6, segment);
}

/// The echo reply on the wire: sent back from the request's destination to its
/// source; type 0 of protocol 1 over IPv4, type 129 of protocol 58 over IPv6;
/// code 0; the given id, sequence number and data; and its checksum
/// complements all of it.
pub proof fn echo_reply_on_the_wire(
    request: Seq<u8>,
    echo: EchoModel,
    data: Seq<u8>,
    message: Seq<u8>,
)
    requires
        request.len() >= 12,
        echo.src_ip is V4 <==> echo.dst_ip is V4,
        message == echo_reply_frame(request, echo, data).skip(
            if echo.src_ip is V4 {
                34
            } else {
                54
            },
        ),
    ensures
        carries(
            echo_reply_frame(request, echo, data),
            echo.dst_ip,
            echo.src_ip,
            ping_number(echo.src_ip),
            message,
        ),
        echo_reply_frame(request, echo, data).subrange(0, 12) == request.subrange(6, 12)
            + request.subrange(0, 6),
        message.len() == 8 + data.len(),
        message[0] == (if echo.src_ip is V4 {
            0u8
        } else {
            129u8
        }),
        message[1] == 0,
        word_at(message, 4) == echo.id,
        word_at(message, 6) == echo.seq,
        message.skip(8) == data,
        echo.src_ip is V4 ==> word_sum(message) % 65535 == 0,
        echo.src_ip is V6 && message.len() < 65536 ==> (number_of(echo.src_ip) + number_of(
            echo.dst_ip,
        ) + 58 + message.len() + word_sum(message)) % 65535 == 0,
{
    broadcast use be_bytes_len;

    let reply = echo_reply_frame(request, echo, data);
    echo_reply_answers_the_request(request, echo, data);
    found_packet_is_carried(reply);
    assert(message =~= crate::wire_reply::echo_reply_message(echo, data));
    word_is_value(message, 4);
    word_is_value(message, 6);
    assert(reply.subrange(0, 12) =~= request.subrange(6, 12) + request.subrange(0, 6));
    checksums_complement_the_sum(message);
    if echo.src_ip is V6 && message.len() < 65536 {
        transport_checksums_cover_the_segment(echo.dst_ip, echo.src_ip, 58, message);
    }
}

} // verus!
