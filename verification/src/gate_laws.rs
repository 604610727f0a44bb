//! What holds of the egress gate as a whole.

use vstd::prelude::*;
use crate::bytes::{be_bytes, be_bytes_len, be_bytes_two, put16};
use crate::dns::{query_in, refusal_of};
use crate::filter::{
    clamped_ttl, observation_adds_only_the_answer, observation_is_exact, observation_only_adds,
    observed_answer_is_permitted, FilterModel,
};
use crate::flows::{each_once, is_idle, still_active, touched, tracks, FlowKey};
use crate::gate::{
    observed_all, ping_packet, tcp_key, udp_key, DnsVerdictModel, GateModel, VerdictModel, DNS_ANSWER_TTL,
    DNS_ANSWER_TTL_SECONDS, DNS_PORT,
};
use crate::guard::{cloud_metadata, host_local};
use crate::ip::IpAddr;
use crate::pattern::{hostname_form, unmapped};
use crate::wire::{
    checksum_of, echo_request_in, tcp_syn_in, udp_in, word_sum, EchoModel, UdpInfo,
};
use crate::wire_laws::{
    carries, checksums_complement_the_sum, connection_attempts_are_peeked_exactly,
    datagrams_are_peeked_exactly, other_frames_peek_to_nothing, ping_number,
    pings_are_peeked_exactly, word_at,
};
use crate::wire_reply::{peeks_exclude_each_other, rst_frame, sealed_bytes_verify};

verus! {

/// Every flow that the egress gate opens passed both the allow list and the guard.
pub proof fn opened_flows_are_reachable(gate: GateModel, frame: Seq<u8>, now: u64)
    ensures
        match gate.judge_frame(frame, now).0 {
            VerdictModel::OpenTcp(key) => gate.reachable(key.dst_ip, now),
            VerdictModel::OpenUdp(info) => gate.reachable(info.dst_ip, now),
            VerdictModel::Ping { echo, .. } => gate.reachable(echo.dst_ip, now),
            _ => true,
        },
{
}

/// Nothing that the guard names is ever reachable, whatever the allow list
/// says: the metadata endpoints and the egress gate's own addresses in every
/// configuration; host-local and host interface addresses unless the egress gate is
/// told to relay to them.
pub proof fn guarded_destinations_are_unreachable(gate: GateModel, ip: IpAddr, now: u64)
    ensures
        cloud_metadata(ip) || gate.config.owns(ip) ==> !gate.reachable(ip, now),
        !gate.config.relay_host_local && (host_local(ip) || gate.on_host(ip)) ==> !gate.reachable(
            ip,
            now,
        ),
{
}

/// A SYN of a new flow to a denied destination is answered with its RST, and
/// leaves no trace in the egress gate.
pub proof fn denied_syn_is_reset(gate: GateModel, frame: Seq<u8>, now: u64)
    requires
        tcp_syn_in(frame) is Some,
        !tracks(gate.tcp, tcp_key(tcp_syn_in(frame)->0)),
        !gate.reachable((tcp_syn_in(frame)->0).dst_ip, now),
    ensures
        gate.judge_frame(frame, now) == (
            VerdictModel::Reset(rst_frame(frame, tcp_syn_in(frame)->0)),
            gate,
        ),
{
}

/// A datagram of a new flow to a denied destination, and a ping to one, are
/// dropped and leave no trace.
pub proof fn denied_datagrams_and_pings_are_dropped(gate: GateModel, frame: Seq<u8>, now: u64)
    requires
        match (udp_in(frame), echo_request_in(frame)) {
            (Some(info), _) => !gate.reachable(info.dst_ip, now) && !tracks(
                gate.udp,
                udp_key(info),
            ) && !(gate.config.serves_dns(info.dst_ip) && info.dst_port == DNS_PORT),
            (None, Some(echo)) => !gate.reachable(echo.dst_ip, now),
            (None, None) => false,
        },
    ensures
        gate.judge_frame(frame, now) == (VerdictModel::Drop, gate),
{
}

/// At a cap a new flow is dropped and nothing changes: the guest is
/// throttled, the filter is never bypassed.
pub proof fn full_tables_drop_new_flows(gate: GateModel, frame: Seq<u8>, now: u64)
    requires
        gate.tcp.len() >= gate.config.max_tcp_flows,
        gate.udp.len() >= gate.config.max_udp_flows,
        gate.pings.len() >= gate.config.max_icmp_flows,
    ensures
        match gate.judge_frame(frame, now).0 {
            VerdictModel::OpenTcp(_) => false,
            VerdictModel::OpenUdp(_) => false,
            VerdictModel::Ping { open, .. } => !open,
            _ => true,
        },
{
}

/// Touching an entry keeps the table's flows and size.
proof fn touching_keeps_flows(entries: Seq<(FlowKey, u64)>, key: FlowKey, now: u64)
    requires
        each_once(entries),
    ensures
        touched(entries, key, now).len() == entries.len(),
        each_once(touched(entries, key, now)),
        forall|k: FlowKey| tracks(touched(entries, key, now), k) ==> tracks(entries, k),
{
    let after = touched(entries, key, now);
    assert forall|i: int| 0 <= i < entries.len() implies (#[trigger] after[i]).0
        == entries[i].0 by {}
    assert forall|i: int, j: int| 0 <= i < j < after.len() implies (#[trigger] after[i]).0 != (
    #[trigger] after[j]).0 by {
        assert(entries[i].0 != entries[j].0);
    }
    assert forall|k: FlowKey| tracks(after, k) implies tracks(entries, k) by {
        let i = choose|i: int| 0 <= i < after.len() && (#[trigger] after[i]).0 == k;
        assert(entries[i].0 == k);
    }
}

/// No frame takes the egress gate over its caps, and no frame touches the filter,
/// the configuration or the resolutions under way.
pub proof fn frames_keep_the_gate_bounded(gate: GateModel, frame: Seq<u8>, now: u64)
    requires
        gate.bounded(),
    ensures
        gate.judge_frame(frame, now).1.bounded(),
        gate.judge_frame(frame, now).1.filter == gate.filter,
        gate.judge_frame(frame, now).1.config == gate.config,
        gate.judge_frame(frame, now).1.host_addresses == gate.host_addresses,
        gate.judge_frame(frame, now).1.inflight == gate.inflight,
{
    let after = gate.judge_frame(frame, now).1;
    if let Some(info) = udp_in(frame) {
        touching_keeps_flows(gate.udp, udp_key(info), now);
    }
    if let Some(echo) = echo_request_in(frame) {
        touching_keeps_flows(gate.pings, crate::gate::ping_key(echo), now);
    }
}

/// An opened flow is tracked, so its next frame is not judged as a new one.
pub proof fn opened_flow_is_tracked(gate: GateModel, frame: Seq<u8>, now: u64)
    ensures
        gate.judge_frame(frame, now) matches (VerdictModel::OpenTcp(key), after) ==> tracks(
            after.tcp,
            key,
        ),
        gate.judge_frame(frame, now) matches (VerdictModel::OpenUdp(info), after) ==> tracks(
            after.udp,
            udp_key(info),
        ),
{
    let (verdict, after) = gate.judge_frame(frame, now);
    match verdict {
        VerdictModel::OpenTcp(key) => {
            assert(after.tcp[gate.tcp.len() as int].0 == key);
        },
        VerdictModel::OpenUdp(info) => {
            assert(after.udp[gate.udp.len() as int].0 == udp_key(info));
        },
        _ => {},
    }
}

/// A query for a name that is not allow-listed is refused and grants nothing.
pub proof fn unlisted_query_is_refused(gate: GateModel, packet: Seq<u8>)
    requires
        query_in(packet) is Some,
        !gate.filter.lists((query_in(packet)->0).name),
    ensures
        gate.judge_dns(packet).0 is Refuse,
        gate.judge_dns(packet).1 == gate,
{
}

/// Only allow-listed names are resolved, and never more at once than the cap.
pub proof fn resolutions_are_listed_and_bounded(gate: GateModel, packet: Seq<u8>)
    requires
        gate.bounded(),
    ensures
        gate.judge_dns(packet).1.bounded(),
        gate.judge_dns(packet).0 matches DnsVerdictModel::Resolve(query) ==> gate.filter.lists(
            query.name,
        ) && gate.judge_dns(packet).1.inflight == gate.inflight + 1,
{
}

/// Names stay listed while answers are observed.
proof fn observing_keeps_the_lists(
    filter: FilterModel,
    name: Seq<char>,
    ips: Seq<IpAddr>,
    now: u64,
)
    ensures
        observed_all(filter, name, ips, now).hostnames == filter.hostnames,
        observed_all(filter, name, ips, now).static_ips == filter.static_ips,
        observed_all(filter, name, ips, now).cidrs == filter.cidrs,
    decreases ips.len(),
{
    if ips.len() > 0 {
        observing_keeps_the_lists(filter, name, ips.drop_last(), now);
    }
}

/// Every observed answer is permitted until the answer TTL runs out.
proof fn observed_answers_are_permitted(
    filter: FilterModel,
    name: Seq<char>,
    ips: Seq<IpAddr>,
    now: u64,
    i: int,
    later: u64,
)
    requires
        filter.lists(name),
        now <= later < now + DNS_ANSWER_TTL,
        0 <= i < ips.len(),
    ensures
        observed_all(filter, name, ips, now).permits(ips[i], later),
    decreases ips.len(),
{
    let front = ips.drop_last();
    let before = observed_all(filter, name, front, now);
    observing_keeps_the_lists(filter, name, front, now);
    if i == ips.len() - 1 {
        observed_answer_is_permitted(before, name, ips[i], DNS_ANSWER_TTL, now, later);
    } else {
        observed_answers_are_permitted(filter, name, front, now, i, later);
        assert(front[i] == ips[i]);
        observation_only_adds(before, name, ips.last(), DNS_ANSWER_TTL, now, ips[i], later);
    }
}

/// Populate before answer: by the time the guest can act on an answer, a
/// connection to each answered address is let through, until the answer's
/// TTL runs out.
pub proof fn answered_addresses_are_reachable(
    gate: GateModel,
    name: Seq<char>,
    ips: Seq<IpAddr>,
    now: u64,
    i: int,
    later: u64,
)
    requires
        gate.filter.lists(name),
        now <= later < now + DNS_ANSWER_TTL,
        0 <= i < gate.answerable(ips).len(),
    ensures
        gate.resolved(name, ips, now).reachable(gate.answerable(ips)[i], later),
{
    let kept = gate.answerable(ips);
    let pass = |ip: IpAddr| gate.relayable(ip);
    observed_answers_are_permitted(gate.filter, name, kept, now, i, later);
    ips.lemma_filter_pred(pass, i);
    assert(gate.relayable(kept[i]));
    let after = gate.resolved(name, ips, now);
    assert(after.on_host(kept[i]) == gate.on_host(kept[i]));
}

/// A poisoned name cannot smuggle in a guarded address: no answered address
/// is one that the guard refuses.
pub proof fn answers_pass_the_guard(gate: GateModel, ips: Seq<IpAddr>, i: int)
    requires
        0 <= i < gate.answerable(ips).len(),
    ensures
        gate.relayable(gate.answerable(ips)[i]),
        !cloud_metadata(gate.answerable(ips)[i]),
        ips.contains(gate.answerable(ips)[i]),
{
    let pass = |ip: IpAddr| gate.relayable(ip);
    ips.lemma_filter_pred(pass, i);
    assert(gate.answerable(ips).contains(gate.answerable(ips)[i]));
    ips.lemma_filter_contains_rev(pass, gate.answerable(ips)[i]);
}

proof fn observing_adds_only_answers(
    filter: FilterModel,
    name: Seq<char>,
    ips: Seq<IpAddr>,
    now: u64,
    other: IpAddr,
    later: u64,
)
    requires
        observed_all(filter, name, ips, now).permits(other, later),
        forall|i: int| 0 <= i < ips.len() ==> unmapped(#[trigger] ips[i]) != unmapped(other),
    ensures
        filter.permits(other, later),
    decreases ips.len(),
{
    if ips.len() > 0 {
        let front = ips.drop_last();
        assert(unmapped(ips[ips.len() - 1]) != unmapped(other));
        observation_adds_only_the_answer(
            observed_all(filter, name, front, now),
            name,
            ips.last(),
            DNS_ANSWER_TTL,
            now,
            other,
            later,
        );
        assert forall|i: int| 0 <= i < front.len() implies unmapped(#[trigger] front[i])
            != unmapped(other) by {
            assert(front[i] == ips[i]);
        }
        observing_adds_only_answers(filter, name, front, now, other, later);
    }
}

/// A resolution opens nothing beside the addresses that it answers.
pub proof fn resolution_adds_only_its_answers(
    gate: GateModel,
    name: Seq<char>,
    ips: Seq<IpAddr>,
    now: u64,
    other: IpAddr,
    later: u64,
)
    requires
        forall|i: int|
            0 <= i < gate.answerable(ips).len() ==> unmapped(#[trigger] gate.answerable(ips)[i])
                != unmapped(other),
        gate.resolved(name, ips, now).reachable(other, later),
    ensures
        gate.reachable(other, later),
{
    observing_adds_only_answers(gate.filter, name, gate.answerable(ips), now, other, later);
    let after = gate.resolved(name, ips, now);
    assert(after.on_host(other) == gate.on_host(other));
}

/// A flow that expired is no longer tracked, so its next datagram opens a
/// fresh one where the destination is still reachable: expiry frees
/// resources, it never breaks the path.
pub proof fn expired_flow_reopens(gate: GateModel, frame: Seq<u8>, now: u64, later: u64)
    requires
        gate.bounded(),
        udp_in(frame) is Some,
        ({
            let info = udp_in(frame)->0;
            let after = GateModel {
                udp: still_active(gate.udp, now, gate.config.udp_idle),
                ..gate
            };
            &&& !(gate.config.serves_dns(info.dst_ip) && info.dst_port == DNS_PORT)
            &&& forall|i: int|
                0 <= i < gate.udp.len() && (#[trigger] gate.udp[i]).0 == udp_key(info) ==> is_idle(
                    gate.udp[i],
                    now,
                    gate.config.udp_idle,
                )
            &&& after.udp.len() < gate.config.max_udp_flows
            &&& after.reachable(info.dst_ip, later)
        }),
    ensures
        ({
            let after = GateModel {
                udp: still_active(gate.udp, now, gate.config.udp_idle),
                ..gate
            };
            after.judge_frame(frame, later).0 == VerdictModel::OpenUdp(udp_in(frame)->0)
        }),
{
    let info = udp_in(frame)->0;
    let idle = gate.config.udp_idle;
    let kept = still_active(gate.udp, now, idle);
    let active = |e: (FlowKey, u64)| !is_idle(e, now, idle);
    crate::wire_reply::peeks_exclude_each_other(frame);
    if tracks(kept, udp_key(info)) {
        let i = choose|i: int| 0 <= i < kept.len() && (#[trigger] kept[i]).0 == udp_key(info);
        gate.udp.lemma_filter_pred(active, i);
        assert(kept.contains(kept[i]));
        gate.udp.lemma_filter_contains_rev(active, kept[i]);
        let j = choose|j: int| 0 <= j < gate.udp.len() && gate.udp[j] == kept[i];
        assert(gate.udp[j].0 == udp_key(info));
    }
    guarded_destinations_are_unreachable(
        GateModel { udp: kept, ..gate },
        info.dst_ip,
        later,
    );
}

/// A ping goes out as it came in: an echo request of the destination's family
/// (type 8 over IPv4, 128 over IPv6) of code 0, with the guest's id and
/// sequence number and exactly its payload. Over IPv4 it verifies; over IPv6
/// the checksum is left to the kernel.
pub proof fn pings_go_out_as_they_came(echo: EchoModel)
    ensures
        ({
            let packet = ping_packet(echo);
            &&& packet.len() == 8 + echo.payload.len()
            &&& packet[0] == (if echo.dst_ip is V4 {
                8u8
            } else {
                128u8
            })
            &&& packet[1] == 0
            &&& word_at(packet, 4) == echo.id
            &&& word_at(packet, 6) == echo.seq
            &&& packet.skip(8) == echo.payload
            &&& echo.dst_ip is V4 ==> checksum_of(packet) == 0 && word_sum(packet) % 65535 == 0
            &&& echo.dst_ip is V6 ==> word_at(packet, 2) == 0
        }),
{
    broadcast use be_bytes_len;

    let packet = ping_packet(echo);
    be_bytes_two(echo.id as nat);
    be_bytes_two(echo.seq as nat);
    assert(packet.skip(8) =~= echo.payload);
    if echo.dst_ip is V4 {
        let blank = seq![8u8, 0u8, 0u8, 0u8] + be_bytes(echo.id as nat, 2) + be_bytes(
            echo.seq as nat,
            2,
        ) + echo.payload;
        sealed_bytes_verify(blank, 2);
        assert(packet =~= put16(blank, 2, checksum_of(blank)));
        checksums_complement_the_sum(packet);
    }
}

/// A flow may be opened to exactly what the allow list permits and the guard
/// lets through: no metadata endpoint, nothing of the egress gate's own, and,
/// unless host-local relaying is on, nothing host-local and no address of a
/// host interface.
pub proof fn reach_is_exact(gate: GateModel, ip: IpAddr, now: u64)
    ensures
        gate.reachable(ip, now) <==> {
            &&& gate.filter.permits(ip, now)
            &&& !cloud_metadata(ip)
            &&& !gate.config.owns(ip)
            &&& gate.config.relay_host_local || !host_local(ip)
            &&& gate.config.relay_host_local || forall|i: int|
                0 <= i < gate.host_addresses.len() ==> unmapped(#[trigger] gate.host_addresses[i])
                    != unmapped(ip)
        },
{
}

/// What becomes of a connection attempt, told by its bytes: one of a flow that
/// is open passes; one to where no flow may be opened is reset; one beyond the
/// cap is dropped; any other opens its flow, which is then tracked from now.
pub proof fn connection_attempts_are_judged(
    gate: GateModel,
    frame: Seq<u8>,
    src: IpAddr,
    dst: IpAddr,
    segment: Seq<u8>,
    now: u64,
)
    requires
        carries(frame, src, dst, 6, segment),
        segment.len() >= 20,
        segment[13] / 2 % 2 == 1,
        segment[13] / 4 % 2 == 0,
        segment[13] / 16 % 2 == 0,
    ensures
        ({
            let key = FlowKey {
                guest_port: word_at(segment, 0) as u16,
                dst_ip: dst,
                dst_port: word_at(segment, 2) as u16,
            };
            let (verdict, after) = gate.judge_frame(frame, now);
            if tracks(gate.tcp, key) {
                verdict is Pass && after == gate
            } else if !gate.reachable(dst, now) {
                verdict is Reset && after == gate
            } else if gate.tcp.len() >= gate.config.max_tcp_flows {
                verdict is Drop && after == gate
            } else {
                verdict == VerdictModel::OpenTcp(key) && after == (GateModel {
                    tcp: gate.tcp + seq![(key, now)],
                    ..gate
                })
            }
        }),
{
    let key = FlowKey {
        guest_port: word_at(segment, 0) as u16,
        dst_ip: dst,
        dst_port: word_at(segment, 2) as u16,
    };
    connection_attempts_are_peeked_exactly(frame, src, dst, segment);
    assert(gate.tcp + seq![(key, now)] =~= gate.tcp.push((key, now)));
}

/// What becomes of a datagram, told by its bytes: one to the DNS server's port
/// 53 passes, any other to the egress gate's own addresses is dropped; one of a
/// flow that is open passes and keeps the flow alive; one to where no flow may
/// be opened, or beyond the cap, is dropped; any other opens its flow, which is
/// then tracked from now.
pub proof fn datagrams_are_judged(
    gate: GateModel,
    frame: Seq<u8>,
    src: IpAddr,
    dst: IpAddr,
    datagram: Seq<u8>,
    now: u64,
)
    requires
        carries(frame, src, dst, 17, datagram),
        datagram.len() >= 8,
    ensures
        ({
            let key = FlowKey {
                guest_port: word_at(datagram, 0) as u16,
                dst_ip: dst,
                dst_port: word_at(datagram, 2) as u16,
            };
            let to_dns = word_at(datagram, 2) == 53 && (dst == IpAddr::V4(gate.config.dns_ip) || dst
                == IpAddr::V6(gate.config.dns_ip6));
            let (verdict, after) = gate.judge_frame(frame, now);
            if to_dns {
                verdict is Pass && after == gate
            } else if gate.config.owns(dst) {
                verdict is Drop && after == gate
            } else if tracks(gate.udp, key) {
                verdict is Pass && after == (GateModel {
                    udp: touched(gate.udp, key, now),
                    ..gate
                })
            } else if !gate.reachable(dst, now) || gate.udp.len() >= gate.config.max_udp_flows {
                verdict is Drop && after == gate
            } else {
                verdict == VerdictModel::OpenUdp(
                    UdpInfo {
                        src_ip: src,
                        dst_ip: dst,
                        src_port: key.guest_port,
                        dst_port: key.dst_port,
                    },
                ) && after == (GateModel { udp: gate.udp + seq![(key, now)], ..gate })
            }
        }),
{
    let key = FlowKey {
        guest_port: word_at(datagram, 0) as u16,
        dst_ip: dst,
        dst_port: word_at(datagram, 2) as u16,
    };
    datagrams_are_peeked_exactly(frame, src, dst, datagram);
    connection_attempts_are_peeked_exactly(frame, src, dst, datagram);
    peeks_exclude_each_other(frame);
    assert(gate.udp + seq![(key, now)] =~= gate.udp.push((key, now)));
}

/// What becomes of a ping, told by its bytes: one to where no flow may be
/// opened is dropped, even of a flow that was open; one of an open flow is sent
/// on and keeps the flow alive; one beyond the cap is dropped; any other opens
/// a flow for its id, and is sent on.
pub proof fn pings_are_judged(
    gate: GateModel,
    frame: Seq<u8>,
    src: IpAddr,
    dst: IpAddr,
    message: Seq<u8>,
    id: u16,
    number: u16,
    now: u64,
)
    requires
        carries(frame, src, dst, ping_number(src), message),
        message.len() >= 8,
        message[0] == (if src is V4 {
            8u8
        } else {
            128u8
        }),
        message[1] == 0,
        id == word_at(message, 4),
        number == word_at(message, 6),
    ensures
        ({
            let key = FlowKey { guest_port: id, dst_ip: dst, dst_port: 0 };
            let sent = EchoModel {
                src_ip: src,
                dst_ip: dst,
                id,
                seq: number,
                payload: message.skip(8),
            };
            let (verdict, after) = gate.judge_frame(frame, now);
            if !gate.reachable(dst, now) {
                verdict is Drop && after == gate
            } else if tracks(gate.pings, key) {
                verdict == (VerdictModel::Ping {
                    echo: sent,
                    open: false,
                    packet: ping_packet(sent),
                }) && after == (GateModel { pings: touched(gate.pings, key, now), ..gate })
            } else if gate.pings.len() >= gate.config.max_icmp_flows {
                verdict is Drop && after == gate
            } else {
                verdict == (VerdictModel::Ping {
                    echo: sent,
                    open: true,
                    packet: ping_packet(sent),
                }) && after == (GateModel { pings: gate.pings + seq![(key, now)], ..gate })
            }
        }),
{
    let key = FlowKey { guest_port: id, dst_ip: dst, dst_port: 0 };
    pings_are_peeked_exactly(frame, src, dst, message);
    peeks_exclude_each_other(frame);
    assert(gate.pings + seq![(key, now)] =~= gate.pings.push((key, now)));
}

/// Whatever carries no IP packet, or one of another protocol than TCP, UDP and
/// ping, is left to the stack.
pub proof fn other_frames_pass(
    gate: GateModel,
    frame: Seq<u8>,
    src: IpAddr,
    dst: IpAddr,
    protocol: u8,
    payload: Seq<u8>,
    now: u64,
)
    requires
        frame.len() < 34 || !(frame[12] == 0x08 && frame[13] == 0x00 || frame[12] == 0x86
            && frame[13] == 0xDD) || (carries(frame, src, dst, protocol, payload) && protocol != 6
            && protocol != 17 && protocol != ping_number(src)),
    ensures
        gate.judge_frame(frame, now) == (VerdictModel::Pass, gate),
{
    other_frames_peek_to_nothing(frame, src, dst, protocol, payload);
}

/// What becomes of a packet to the DNS socket: no query is answered with
/// nothing; one for a name that is not listed is refused with its refusal; one
/// beyond the cap of resolutions is forgotten; any other is resolved as it was
/// asked, and counted.
pub proof fn dns_packets_are_judged(gate: GateModel, packet: Seq<u8>)
    ensures
        ({
            let (verdict, after) = gate.judge_dns(packet);
            match query_in(packet) {
                None => verdict is Ignore && after == gate,
                Some(query) => if !gate.filter.hostnames.contains(hostname_form(query.name)) {
                    verdict == DnsVerdictModel::Refuse(refusal_of(query)) && after == gate
                } else if gate.inflight >= gate.config.max_inflight_dns {
                    verdict is Busy && after == gate
                } else {
                    verdict == DnsVerdictModel::Resolve(query) && after == (GateModel {
                        inflight: gate.inflight + 1,
                        ..gate
                    })
                },
            }
        }),
{
}

/// Which answers are given, told address by address: one that the guard lets
/// through is kept, one that it does not is not, and answers to two lists in a
/// row are the answers to each, in order.
pub proof fn answers_are_picked_by_the_guard(
    gate: GateModel,
    ip: IpAddr,
    front: Seq<IpAddr>,
    back: Seq<IpAddr>,
)
    ensures
        gate.answerable(Seq::empty()) == Seq::<IpAddr>::empty(),
        gate.answerable(seq![ip]) == (if gate.relayable(ip) {
            seq![ip]
        } else {
            Seq::empty()
        }),
        gate.answerable(front + back) == gate.answerable(front) + gate.answerable(back),
{
    reveal_with_fuel(Seq::filter, 2);
    assert(seq![ip].drop_last() =~= Seq::empty());
    assert(gate.answerable(seq![ip]) =~= if gate.relayable(ip) {
        seq![ip]
    } else {
        Seq::empty()
    });
    assert(gate.answerable(Seq::empty()) =~= Seq::empty());
    Seq::filter_distributes_over_add(front, back, |ip: IpAddr| gate.relayable(ip));
}

/// Whether `ip`, plain or mapped, is one of `ips`.
pub open spec fn is_among(ips: Seq<IpAddr>, ip: IpAddr) -> bool {
    exists|i: int| 0 <= i < ips.len() && unmapped(#[trigger] ips[i]) == unmapped(ip)
}

proof fn among_from_the_end(ips: Seq<IpAddr>, ip: IpAddr)
    requires
        ips.len() > 0,
    ensures
        is_among(ips, ip) <==> is_among(ips.drop_last(), ip) || unmapped(ips.last()) == unmapped(
            ip,
        ),
{
    let front = ips.drop_last();
    if is_among(ips, ip) {
        let i = choose|i: int| 0 <= i < ips.len() && unmapped(#[trigger] ips[i]) == unmapped(ip);
        if i < front.len() {
            assert(front[i] == ips[i]);
        }
    }
    if is_among(front, ip) {
        let i = choose|i: int| 0 <= i < front.len() && unmapped(#[trigger] front[i]) == unmapped(ip);
        assert(ips[i] == front[i]);
    }
    assert(ips[ips.len() - 1] == ips.last());
}

proof fn observing_lasts_for_the_ttl(
    filter: FilterModel,
    name: Seq<char>,
    ips: Seq<IpAddr>,
    now: u64,
    ip: IpAddr,
    later: u64,
)
    requires
        filter.lists(name),
        now <= later,
    ensures
        observed_all(filter, name, ips, now).permits(ip, later) <==> filter.permits(ip, later) || (
        later < now + 60_000_000_000 && is_among(ips, ip)),
    decreases ips.len(),
{
    if ips.len() > 0 {
        let front = ips.drop_last();
        let before = observed_all(filter, name, front, now);
        observing_lasts_for_the_ttl(filter, name, front, now, ip, later);
        observing_keeps_the_lists(filter, name, front, now);
        observation_is_exact(before, name, ips.last(), DNS_ANSWER_TTL, now, ip, later);
        assert(clamped_ttl(DNS_ANSWER_TTL) == 60_000_000_000);
        if unmapped(ips.last()) == unmapped(ip) {
            same_permission(before, ips.last(), ip, later);
            same_permission(
                before.observed(name, ips.last(), DNS_ANSWER_TTL, now),
                ips.last(),
                ip,
                later,
            );
        }
        among_from_the_end(ips, ip);
    }
}

proof fn same_permission(filter: FilterModel, a: IpAddr, b: IpAddr, now: u64)
    requires
        unmapped(a) == unmapped(b),
    ensures
        filter.permits(a, now) == filter.permits(b, now),
{
}

/// What a resolution grants, exactly: from now on an address is permitted where
/// it was before, or where the guard let it through as an answer and less than
/// sixty seconds have passed. Nothing else of the egress gate changes, but that
/// one resolution fewer is under way.
pub proof fn resolutions_grant_exactly(
    gate: GateModel,
    name: Seq<char>,
    ips: Seq<IpAddr>,
    now: u64,
    ip: IpAddr,
    later: u64,
)
    requires
        gate.filter.lists(name),
        now <= later,
    ensures
        gate.resolved(name, ips, now).filter.permits(ip, later) <==> gate.filter.permits(ip, later)
            || (later < now + 60_000_000_000 && is_among(gate.answerable(ips), ip)),
        gate.resolved(name, ips, now) == (GateModel {
            filter: gate.resolved(name, ips, now).filter,
            inflight: if gate.inflight == 0 {
                0
            } else {
                (gate.inflight - 1) as nat
            },
            ..gate
        }),
        gate.resolved(name, ips, now).filter.hostnames == gate.filter.hostnames,
{
    observing_lasts_for_the_ttl(gate.filter, name, gate.answerable(ips), now, ip, later);
    observing_keeps_the_lists(gate.filter, name, gate.answerable(ips), now);
}

/// The guest is told to keep an answer for as long as the answer is granted:
/// sixty seconds.
pub proof fn answers_are_granted_as_long_as_told()
    ensures
        DNS_ANSWER_TTL_SECONDS * 1_000_000_000 == DNS_ANSWER_TTL,
        DNS_ANSWER_TTL_SECONDS == 60,
{
}

} // verus!
