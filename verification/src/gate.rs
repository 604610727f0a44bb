//! The egress gate's decisions: what becomes of each guest frame, each DNS
//! packet and each resolved name.
//!
//! Every guest frame passes through here; there is no other path off the
//! machine. The egress gate is the guest's gateway and DNS server:
//!
//! - **TCP:** each frame is peeked for a SYN before the stack sees it. A SYN
//!   to an allowed destination opens exactly that flow; a denied one is
//!   answered with a synthesized RST and never reaches the stack.
//! - **DNS:** queries for allow-listed names resolve on the host, and the
//!   answers populate the filter before the guest hears them; anything else
//!   is REFUSED. DNS never *grants* anything by itself: the connect-time IP
//!   check is the control.
//! - **UDP:** datagrams to allowed destinations get per-flow NAT state with
//!   idle expiry; denied ones are dropped silently.
//! - **ICMP echo:** pings to allowed destinations are relayed through a host
//!   ping socket; denied ones are dropped.
//!
//! A destination must pass both the allow list and the host-local guard, and
//! all NAT state is bounded: at a cap the new flow is dropped.

use vstd::prelude::*;
use crate::bytes::{be_bytes, be_bytes_len, push_all, push_u16, put16, write_u16};
use crate::dns::{
    build_refused, build_response, parse_query, query_in, refusal_of, response_to, DnsQuery,
    QueryModel,
};
use crate::filter::{EgressFilter, FilterModel};
use crate::flows::{
    each_once, gone_idle, keys_of, still_active, touched, tracks, without, FlowKey, FlowTable,
};
use crate::guard::GateConfig;
use crate::ip::IpAddr;
use crate::pattern::{normalize_ip, unmapped};
use crate::wire::{
    checksum_of, echo_request_in, internet_checksum, peek_icmp_echo_request, peek_tcp_syn,
    peek_udp, tcp_syn_in, udp_in, EchoModel, IcmpEchoInfo, TcpSynInfo, UdpInfo,
    ICMPV6_ECHO_REQUEST, ICMP_ECHO_REQUEST,
};
use crate::wire_reply::{peeked_flows_have_one_family, rst_frame, synthesize_rst};

verus! {

/// TTL fed to the filter for the egress gate's DNS answers: 60 s, in nanoseconds.
pub const DNS_ANSWER_TTL: u64 = 60_000_000_000;

/// The same TTL as stamped on the answers, in seconds.
pub const DNS_ANSWER_TTL_SECONDS: u32 = 60;

pub const DNS_PORT: u16 = 53;

/// What to do with a guest frame.
#[derive(Debug)]
pub enum FrameVerdict {
    /// Hand the frame to the stack.
    Pass,
    /// Forget the frame.
    Drop,
    /// Forget the frame, and write this RST back to the guest.
    Reset(Vec<u8>),
    /// Open a listener and a host connection for this flow, then hand the
    /// frame to the stack.
    OpenTcp(FlowKey),
    /// Open a host socket for this flow, then hand the frame to the stack.
    OpenUdp(UdpInfo),
    /// Send `packet` through the ping socket of this flow, opening one first
    /// if `open` says so. The frame is done with.
    Ping { echo: IcmpEchoInfo, open: bool, packet: Vec<u8> },
}

/// What a verdict says.
pub enum VerdictModel {
    Pass,
    Drop,
    Reset(Seq<u8>),
    OpenTcp(FlowKey),
    OpenUdp(UdpInfo),
    Ping { echo: EchoModel, open: bool, packet: Seq<u8> },
}

impl View for FrameVerdict {
    type V = VerdictModel;

    open spec fn view(&self) -> VerdictModel {
        match self {
            FrameVerdict::Pass => VerdictModel::Pass,
            FrameVerdict::Drop => VerdictModel::Drop,
            FrameVerdict::Reset(rst) => VerdictModel::Reset(rst@),
            FrameVerdict::OpenTcp(key) => VerdictModel::OpenTcp(*key),
            FrameVerdict::OpenUdp(info) => VerdictModel::OpenUdp(*info),
            FrameVerdict::Ping { echo, open, packet } => VerdictModel::Ping {
                echo: echo@,
                open: *open,
                packet: packet@,
            },
        }
    }
}

/// What to do with a packet to the egress gate's DNS socket.
#[derive(Debug)]
pub enum DnsVerdict {
    /// No query that the egress gate answers: forget it.
    Ignore,
    /// The name is not allow-listed: write this refusal back.
    Refuse(Vec<u8>),
    /// Too many resolutions are running: forget it, the guest retries.
    Busy,
    /// Resolve the name on the host, then report what came back.
    Resolve(DnsQuery),
}

/// What a DNS verdict says.
pub enum DnsVerdictModel {
    Ignore,
    Refuse(Seq<u8>),
    Busy,
    Resolve(QueryModel),
}

impl View for DnsVerdict {
    type V = DnsVerdictModel;

    open spec fn view(&self) -> DnsVerdictModel {
        match self {
            DnsVerdict::Ignore => DnsVerdictModel::Ignore,
            DnsVerdict::Refuse(refusal) => DnsVerdictModel::Refuse(refusal@),
            DnsVerdict::Busy => DnsVerdictModel::Busy,
            DnsVerdict::Resolve(query) => DnsVerdictModel::Resolve(query@),
        }
    }
}

/// What the egress gate knows.
pub struct GateModel {
    pub config: GateConfig,
    pub filter: FilterModel,
    /// The addresses of the host's own interfaces.
    pub host_addresses: Seq<IpAddr>,
    pub tcp: Seq<(FlowKey, u64)>,
    pub udp: Seq<(FlowKey, u64)>,
    pub pings: Seq<(FlowKey, u64)>,
    /// How many resolutions are running.
    pub inflight: nat,
}

pub open spec fn tcp_key(syn: TcpSynInfo) -> FlowKey {
    FlowKey { guest_port: syn.src_port, dst_ip: syn.dst_ip, dst_port: syn.dst_port }
}

pub open spec fn udp_key(info: UdpInfo) -> FlowKey {
    FlowKey { guest_port: info.src_port, dst_ip: info.dst_ip, dst_port: info.dst_port }
}

pub open spec fn ping_key(echo: EchoModel) -> FlowKey {
    FlowKey { guest_port: echo.id, dst_ip: echo.dst_ip, dst_port: 0 }
}

/// The echo request that goes out on the host ping socket: the guest's id,
/// sequence number and payload. Over IPv6 the kernel fills the checksum in.
pub open spec fn ping_packet(echo: EchoModel) -> Seq<u8> {
    let blank = seq![
        if echo.dst_ip is V4 {
            ICMP_ECHO_REQUEST
        } else {
            ICMPV6_ECHO_REQUEST
        },
        0u8,
        0u8,
        0u8,
    ] + be_bytes(echo.id as nat, 2) + be_bytes(echo.seq as nat, 2) + echo.payload;
    if echo.dst_ip is V4 {
        put16(blank, 2, checksum_of(blank))
    } else {
        blank
    }
}

/// `filter` after the answers `ips` for `name`, in order.
pub open spec fn observed_all(
    filter: FilterModel,
    name: Seq<char>,
    ips: Seq<IpAddr>,
    now: u64,
) -> FilterModel
    decreases ips.len(),
{
    if ips.len() == 0 {
        filter
    } else {
        observed_all(filter, name, ips.drop_last(), now).observed(
            name,
            ips.last(),
            DNS_ANSWER_TTL,
            now,
        )
    }
}

impl GateModel {
    /// Whether `ip` is an address of a host interface.
    pub open spec fn on_host(self, ip: IpAddr) -> bool {
        exists|i: int|
            0 <= i < self.host_addresses.len() && unmapped(#[trigger] self.host_addresses[i])
                == unmapped(ip)
    }

    /// Whether the guard lets the egress gate relay to `ip`.
    pub open spec fn relayable(self, ip: IpAddr) -> bool {
        self.config.relayable(ip) && (self.config.relay_host_local || !self.on_host(ip))
    }

    /// Whether a flow to `ip` may be opened: both the allow list and the
    /// guard say so.
    pub open spec fn reachable(self, ip: IpAddr, now: u64) -> bool {
        self.filter.permits(ip, now) && self.relayable(ip)
    }

    /// All NAT state is within its caps, and no flow is tracked twice.
    pub open spec fn bounded(self) -> bool {
        &&& self.tcp.len() <= self.config.max_tcp_flows
        &&& self.udp.len() <= self.config.max_udp_flows
        &&& self.pings.len() <= self.config.max_icmp_flows
        &&& self.inflight <= self.config.max_inflight_dns
        &&& each_once(self.tcp)
        &&& each_once(self.udp)
        &&& each_once(self.pings)
    }

    pub open spec fn judge_syn(self, frame: Seq<u8>, syn: TcpSynInfo, now: u64) -> (
        VerdictModel,
        GateModel,
    ) {
        if tracks(self.tcp, tcp_key(syn)) {
            (VerdictModel::Pass, self)
        } else if !self.reachable(syn.dst_ip, now) {
            (VerdictModel::Reset(rst_frame(frame, syn)), self)
        } else if self.tcp.len() >= self.config.max_tcp_flows {
            (VerdictModel::Drop, self)
        } else {
            (
                VerdictModel::OpenTcp(tcp_key(syn)),
                GateModel { tcp: self.tcp.push((tcp_key(syn), now)), ..self },
            )
        }
    }

    pub open spec fn judge_udp(self, info: UdpInfo, now: u64) -> (VerdictModel, GateModel) {
        if self.config.serves_dns(info.dst_ip) && info.dst_port == DNS_PORT {
            (VerdictModel::Pass, self)
        } else if self.config.owns(info.dst_ip) {
            (VerdictModel::Drop, self)
        } else if tracks(self.udp, udp_key(info)) {
            (
                VerdictModel::Pass,
                GateModel { udp: touched(self.udp, udp_key(info), now), ..self },
            )
        } else if !self.reachable(info.dst_ip, now) || self.udp.len()
            >= self.config.max_udp_flows {
            (VerdictModel::Drop, self)
        } else {
            (
                VerdictModel::OpenUdp(info),
                GateModel { udp: self.udp.push((udp_key(info), now)), ..self },
            )
        }
    }

    pub open spec fn judge_echo(self, echo: EchoModel, now: u64) -> (VerdictModel, GateModel) {
        let key = ping_key(echo);
        let packet = ping_packet(echo);
        if !self.reachable(echo.dst_ip, now) {
            (VerdictModel::Drop, self)
        } else if tracks(self.pings, key) {
            (
                VerdictModel::Ping { echo, open: false, packet },
                GateModel { pings: touched(self.pings, key, now), ..self },
            )
        } else if self.pings.len() >= self.config.max_icmp_flows {
            (VerdictModel::Drop, self)
        } else {
            (
                VerdictModel::Ping { echo, open: true, packet },
                GateModel { pings: self.pings.push((key, now)), ..self },
            )
        }
    }

    /// What becomes of a guest frame, and of the egress gate.
    pub open spec fn judge_frame(self, frame: Seq<u8>, now: u64) -> (VerdictModel, GateModel) {
        match (tcp_syn_in(frame), udp_in(frame), echo_request_in(frame)) {
            (Some(syn), _, _) => self.judge_syn(frame, syn, now),
            (None, Some(info), _) => self.judge_udp(info, now),
            (None, None, Some(echo)) => self.judge_echo(echo, now),
            (None, None, None) => (VerdictModel::Pass, self),
        }
    }

    /// What becomes of a packet to the DNS socket, and of the egress gate.
    pub open spec fn judge_dns(self, packet: Seq<u8>) -> (DnsVerdictModel, GateModel) {
        match query_in(packet) {
            None => (DnsVerdictModel::Ignore, self),
            Some(query) => if !self.filter.lists(query.name) {
                (DnsVerdictModel::Refuse(refusal_of(query)), self)
            } else if self.inflight >= self.config.max_inflight_dns {
                (DnsVerdictModel::Busy, self)
            } else {
                (
                    DnsVerdictModel::Resolve(query),
                    GateModel { inflight: self.inflight + 1, ..self },
                )
            },
        }
    }

    /// The resolved addresses that the guard lets through, in order.
    pub open spec fn answerable(self, ips: Seq<IpAddr>) -> Seq<IpAddr> {
        ips.filter(|ip: IpAddr| self.relayable(ip))
    }

    /// The egress gate after `name` resolved to `ips`.
    pub open spec fn resolved(self, name: Seq<char>, ips: Seq<IpAddr>, now: u64) -> GateModel {
        GateModel {
            filter: observed_all(self.filter, name, self.answerable(ips), now),
            inflight: if self.inflight > 0 {
                (self.inflight - 1) as nat
            } else {
                0
            },
            ..self
        }
    }
}

/// The state of a gate.
#[derive(Debug)]
pub struct GateState {
    config: GateConfig,
    filter: EgressFilter,
    host_addresses: Vec<IpAddr>,
    tcp: FlowTable,
    udp: FlowTable,
    pings: FlowTable,
    inflight: usize,
}

impl View for GateState {
    type V = GateModel;

    closed spec fn view(&self) -> GateModel {
        GateModel {
            config: self.config,
            filter: self.filter@,
            host_addresses: self.host_addresses@,
            tcp: self.tcp@,
            udp: self.udp@,
            pings: self.pings@,
            inflight: self.inflight as nat,
        }
    }
}

fn build_ping_packet(echo: &IcmpEchoInfo) -> (packet: Vec<u8>)
    ensures
        packet@ == ping_packet(echo@),
{
    broadcast use be_bytes_len;

    let kind: u8 = match echo.dst_ip {
        IpAddr::V4(_) => ICMP_ECHO_REQUEST,
        IpAddr::V6(_) => ICMPV6_ECHO_REQUEST,
    };
    let mut packet: Vec<u8> = vec![kind, 0, 0, 0];
    push_u16(&mut packet, echo.id);
    push_u16(&mut packet, echo.seq);
    push_all(&mut packet, echo.payload.as_slice());
    if let IpAddr::V4(_) = echo.dst_ip {
        let checksum: u16 = internet_checksum(packet.as_slice());
        write_u16(&mut packet, 2, checksum);
    }
    packet
}

impl GateState {
    /// The tables keep to the configuration's caps, and the filter is valid.
    pub closed spec fn wf(self) -> bool {
        &&& self.filter.wf()
        &&& self.tcp.wf() && self.tcp.limit() == self.config.max_tcp_flows
        &&& self.udp.wf() && self.udp.limit() == self.config.max_udp_flows
        &&& self.pings.wf() && self.pings.limit() == self.config.max_icmp_flows
        &&& self.inflight <= self.config.max_inflight_dns
    }

    /// A gate before its first frame. `host_addresses` are those of the
    /// host's interfaces at that moment.
    pub fn new(config: GateConfig, filter: EgressFilter, host_addresses: Vec<IpAddr>) -> (gate:
        GateState)
        requires
            filter.wf(),
        ensures
            gate.wf(),
            gate@.bounded(),
            gate@ == (GateModel {
                config,
                filter: filter@,
                host_addresses: host_addresses@,
                tcp: Seq::empty(),
                udp: Seq::empty(),
                pings: Seq::empty(),
                inflight: 0,
            }),
    {
        GateState {
            config,
            filter,
            host_addresses,
            tcp: FlowTable::new(config.max_tcp_flows),
            udp: FlowTable::new(config.max_udp_flows),
            pings: FlowTable::new(config.max_icmp_flows),
            inflight: 0,
        }
    }

    /// May the egress gate relay to `ip` at all?
    pub fn may_relay(&self, ip: IpAddr) -> (yes: bool)
        ensures
            yes == self@.relayable(ip),
    {
        if !self.config.is_relayable(ip) {
            return false;
        }
        if self.config.relay_host_local {
            return true;
        }
        let plain: IpAddr = normalize_ip(ip);
        let mut i: usize = 0;
        while i < self.host_addresses.len()
            invariant
                i <= self.host_addresses@.len(),
                plain == unmapped(ip),
                self.config.relayable(ip),
                forall|j: int| 0 <= j < i ==> unmapped(#[trigger] self.host_addresses@[j]) != plain,
            decreases self.host_addresses@.len() - i,
        {
            if normalize_ip(self.host_addresses[i]) == plain {
                assert(unmapped(self@.host_addresses[i as int]) == unmapped(ip));
                return self.config.relay_host_local;
            }
            i = i + 1;
        }
        assert(!self@.on_host(ip));
        true
    }

    fn may_reach(&self, ip: IpAddr, now: u64) -> (yes: bool)
        requires
            self.wf(),
        ensures
            yes == self@.reachable(ip, now),
    {
        self.filter.allows_ip(ip, now) && self.may_relay(ip)
    }

    /// Decides what becomes of a guest frame. A flow that the verdict opens
    /// is tracked from here on; where opening it fails, report it closed.
    pub fn on_frame(&mut self, frame: &[u8], now: u64) -> (verdict: FrameVerdict)
        requires
            old(self).wf(),
        ensures
            final(self).wf(),
            final(self)@.bounded(),
            (verdict@, final(self)@) == old(self)@.judge_frame(frame@, now),
    {
        proof {
            peeked_flows_have_one_family(frame@);
        }
        if let Some(syn) = peek_tcp_syn(frame) {
            return self.on_syn(frame, syn, now);
        }
        if let Some(info) = peek_udp(frame) {
            return self.on_udp(info, now);
        }
        match peek_icmp_echo_request(frame) {
            Some(echo) => self.on_echo(echo, now),
            None => FrameVerdict::Pass,
        }
    }

    fn on_syn(&mut self, frame: &[u8], syn: TcpSynInfo, now: u64) -> (verdict: FrameVerdict)
        requires
            old(self).wf(),
            frame@.len() >= 14,
            syn.src_ip.same_family(syn.dst_ip),
        ensures
            final(self).wf(),
            final(self)@.bounded(),
            (verdict@, final(self)@) == old(self)@.judge_syn(frame@, syn, now),
    {
        let key = FlowKey {
            guest_port: syn.src_port,
            dst_ip: syn.dst_ip,
            dst_port: syn.dst_port,
        };
        if self.tcp.contains(key) {
            return FrameVerdict::Pass;
        }
        if !self.may_reach(syn.dst_ip, now) {
            return match synthesize_rst(frame, &syn) {
                Some(rst) => FrameVerdict::Reset(rst),
                None => FrameVerdict::Drop,
            };
        }
        if self.tcp.is_full() {
            return FrameVerdict::Drop;
        }
        self.tcp.insert(key, now);
        FrameVerdict::OpenTcp(key)
    }

    fn on_udp(&mut self, info: UdpInfo, now: u64) -> (verdict: FrameVerdict)
        requires
            old(self).wf(),
        ensures
            final(self).wf(),
            final(self)@.bounded(),
            (verdict@, final(self)@) == old(self)@.judge_udp(info, now),
    {
        if self.config.is_dns_server(info.dst_ip) && info.dst_port == DNS_PORT {
            return FrameVerdict::Pass;
        }
        if self.config.is_own(info.dst_ip) {
            return FrameVerdict::Drop;
        }
        let key = FlowKey {
            guest_port: info.src_port,
            dst_ip: info.dst_ip,
            dst_port: info.dst_port,
        };
        if self.udp.contains(key) {
            self.udp.touch(key, now);
            return FrameVerdict::Pass;
        }
        if !self.may_reach(info.dst_ip, now) || self.udp.is_full() {
            return FrameVerdict::Drop;
        }
        self.udp.insert(key, now);
        FrameVerdict::OpenUdp(info)
    }

    fn on_echo(&mut self, echo: IcmpEchoInfo, now: u64) -> (verdict: FrameVerdict)
        requires
            old(self).wf(),
        ensures
            final(self).wf(),
            final(self)@.bounded(),
            (verdict@, final(self)@) == old(self)@.judge_echo(echo@, now),
    {
        if !self.may_reach(echo.dst_ip, now) {
            return FrameVerdict::Drop;
        }
        let key = FlowKey { guest_port: echo.id, dst_ip: echo.dst_ip, dst_port: 0 };
        let packet: Vec<u8> = build_ping_packet(&echo);
        if self.pings.contains(key) {
            self.pings.touch(key, now);
            return FrameVerdict::Ping { echo, open: false, packet };
        }
        if self.pings.is_full() {
            return FrameVerdict::Drop;
        }
        self.pings.insert(key, now);
        FrameVerdict::Ping { echo, open: true, packet }
    }

    /// Decides what becomes of a packet to the egress gate's DNS socket.
    pub fn on_dns_packet(&mut self, packet: &[u8]) -> (verdict: DnsVerdict)
        requires
            old(self).wf(),
        ensures
            final(self).wf(),
            final(self)@.bounded(),
            (verdict@, final(self)@) == old(self)@.judge_dns(packet@),
    {
        let query: DnsQuery = match parse_query(packet) {
            Some(query) => query,
            None => {
                return DnsVerdict::Ignore;
            },
        };
        if !self.filter.matches_hostname(query.name.as_str()) {
            return DnsVerdict::Refuse(build_refused(&query));
        }
        if self.inflight >= self.config.max_inflight_dns {
            return DnsVerdict::Busy;
        }
        self.inflight = self.inflight + 1;
        DnsVerdict::Resolve(query)
    }

    /// Takes what the host resolver gave for `query` and returns the answer
    /// for the guest. The filter admits every answered address before the
    /// guest can hear of it; addresses that the guard refuses are left out of
    /// both.
    pub fn on_dns_resolved(&mut self, query: &DnsQuery, ips: &[IpAddr], now: u64) -> (response: Vec<
        u8,
    >)
        requires
            old(self).wf(),
        ensures
            final(self).wf(),
            final(self)@.bounded(),
            final(self)@ == old(self)@.resolved(query.name@, ips@, now),
            response@ == response_to(
                query@,
                old(self)@.answerable(ips@),
                DNS_ANSWER_TTL_SECONDS,
            ),
    {
        let ghost before = self@;
        let ghost pass = |ip: IpAddr| before.relayable(ip);
        let mut kept: Vec<IpAddr> = Vec::new();
        let mut i: usize = 0;
        assert(ips@.subrange(0, 0).filter(pass) =~= Seq::<IpAddr>::empty()) by {
            reveal(Seq::filter);
        }
        while i < ips.len()
            invariant
                i <= ips@.len(),
                self.wf(),
                self@ == before,
                pass == (|ip: IpAddr| before.relayable(ip)),
                kept@ == ips@.subrange(0, i as int).filter(pass),
            decreases ips@.len() - i,
        {
            proof {
                reveal(Seq::filter);
                assert(ips@.subrange(0, i + 1).drop_last() =~= ips@.subrange(0, i as int));
            }
            if self.may_relay(ips[i]) {
                kept.push(ips[i]);
            }
            i = i + 1;
        }
        assert(ips@.subrange(0, i as int) =~= ips@);
        i = 0;
        while i < kept.len()
            invariant
                i <= kept@.len(),
                self.wf(),
                self@ == (GateModel {
                    filter: observed_all(
                        before.filter,
                        query.name@,
                        kept@.subrange(0, i as int),
                        now,
                    ),
                    ..before
                }),
            decreases kept@.len() - i,
        {
            assert(kept@.subrange(0, i + 1).drop_last() =~= kept@.subrange(0, i as int));
            self.filter.observe_dns(query.name.as_str(), kept[i], DNS_ANSWER_TTL, now);
            i = i + 1;
        }
        assert(kept@.subrange(0, i as int) =~= kept@);
        if self.inflight > 0 {
            self.inflight = self.inflight - 1;
        }
        build_response(query, kept.as_slice(), DNS_ANSWER_TTL_SECONDS)
    }

    /// A TCP flow is over, or could not be opened.
    pub fn tcp_closed(&mut self, key: FlowKey)
        requires
            old(self).wf(),
        ensures
            final(self).wf(),
            final(self)@.bounded(),
            final(self)@ == (GateModel { tcp: without(old(self)@.tcp, key), ..old(self)@ }),
    {
        self.tcp.remove(key);
    }

    /// A UDP flow could not be opened.
    pub fn udp_closed(&mut self, key: FlowKey)
        requires
            old(self).wf(),
        ensures
            final(self).wf(),
            final(self)@.bounded(),
            final(self)@ == (GateModel { udp: without(old(self)@.udp, key), ..old(self)@ }),
    {
        self.udp.remove(key);
    }

    /// A ping flow could not be opened.
    pub fn ping_closed(&mut self, key: FlowKey)
        requires
            old(self).wf(),
        ensures
            final(self).wf(),
            final(self)@.bounded(),
            final(self)@ == (GateModel { pings: without(old(self)@.pings, key), ..old(self)@ }),
    {
        self.pings.remove(key);
    }

    /// A datagram crossed a UDP flow.
    pub fn udp_moved(&mut self, key: FlowKey, now: u64)
        requires
            old(self).wf(),
        ensures
            final(self).wf(),
            final(self)@.bounded(),
            final(self)@ == (GateModel { udp: touched(old(self)@.udp, key, now), ..old(self)@ }),
    {
        self.udp.touch(key, now);
    }

    /// A reply crossed a ping flow.
    pub fn ping_moved(&mut self, key: FlowKey, now: u64)
        requires
            old(self).wf(),
        ensures
            final(self).wf(),
            final(self)@.bounded(),
            final(self)@ == (GateModel {
                pings: touched(old(self)@.pings, key, now),
                ..old(self)@
            }),
    {
        self.pings.touch(key, now);
    }

    /// Forgets the UDP flows that have been idle too long, and returns them.
    pub fn expire_udp(&mut self, now: u64) -> (expired: Vec<FlowKey>)
        requires
            old(self).wf(),
        ensures
            final(self).wf(),
            final(self)@.bounded(),
            expired@ == keys_of(gone_idle(old(self)@.udp, now, old(self)@.config.udp_idle)),
            final(self)@ == (GateModel {
                udp: still_active(old(self)@.udp, now, old(self)@.config.udp_idle),
                ..old(self)@
            }),
    {
        self.udp.expire(now, self.config.udp_idle)
    }

    /// Forgets the ping flows that have been idle too long, and returns them.
    pub fn expire_pings(&mut self, now: u64) -> (expired: Vec<FlowKey>)
        requires
            old(self).wf(),
        ensures
            final(self).wf(),
            final(self)@.bounded(),
            expired@ == keys_of(gone_idle(old(self)@.pings, now, old(self)@.config.udp_idle)),
            final(self)@ == (GateModel {
                pings: still_active(old(self)@.pings, now, old(self)@.config.udp_idle),
                ..old(self)@
            }),
    {
        self.pings.expire(now, self.config.udp_idle)
    }
}

} // verus!
