//! The egress gate's network identity, and the host-local egress guard: which
//! destinations are never relayed to, whatever the allow list says.
//!
//! The egress gate re-originates the guest's connections from host sockets, so a
//! broad allow list must not become a way to reach the host itself.

use vstd::prelude::*;
use crate::ip::IpAddr;
use crate::pattern::{normalize_ip, unmapped};

verus! {

/// Network identity and limits of a gate. The defaults mirror the guest's
/// static configuration: guest 10.0.2.15/24, gateway .2, DNS .3, and the same
/// hosts in `fd00:6d78:63::/64`. Addresses are the numbers that their octets
/// spell.
#[derive(Clone, Copy, Debug, PartialEq, Eq, Structural)]
pub struct GateConfig {
    pub gateway_ip: u32,
    pub dns_ip: u32,
    pub guest_ip: u32,
    pub prefix_len: u8,
    pub gateway_ip6: u128,
    pub dns_ip6: u128,
    pub guest_ip6: u128,
    pub prefix_len6: u8,
    /// Idle timeout for UDP and ping flows, in nanoseconds; an expired flow's
    /// next datagram simply opens a fresh one.
    pub udp_idle: u64,
    pub max_tcp_flows: usize,
    pub max_udp_flows: usize,
    pub max_icmp_flows: usize,
    pub max_inflight_dns: usize,
    /// Relay to host-local destinations too. Off in production; on where
    /// loopback stands in for the internet.
    pub relay_host_local: bool,
}

pub open spec fn default_gate_config() -> GateConfig {
    GateConfig {
        gateway_ip: 0x0A00_0202,
        dns_ip: 0x0A00_0203,
        guest_ip: 0x0A00_020F,
        prefix_len: 24,
        gateway_ip6: 0xfd00_6d78_0063_0000_0000_0000_0000_0002,
        dns_ip6: 0xfd00_6d78_0063_0000_0000_0000_0000_0003,
        guest_ip6: 0xfd00_6d78_0063_0000_0000_0000_0000_0015,
        prefix_len6: 64,
        udp_idle: 30_000_000_000,
        max_tcp_flows: 512,
        max_udp_flows: 512,
        max_icmp_flows: 128,
        max_inflight_dns: 64,
        relay_host_local: false,
    }
}

impl Default for GateConfig {
    fn default() -> (config: Self)
        ensures
            config == default_gate_config(),
    {
        GateConfig {
            gateway_ip: 0x0A00_0202,
            dns_ip: 0x0A00_0203,
            guest_ip: 0x0A00_020F,
            prefix_len: 24,
            gateway_ip6: 0xfd00_6d78_0063_0000_0000_0000_0000_0002,
            dns_ip6: 0xfd00_6d78_0063_0000_0000_0000_0000_0003,
            guest_ip6: 0xfd00_6d78_0063_0000_0000_0000_0000_0015,
            prefix_len6: 64,
            udp_idle: 30_000_000_000,
            max_tcp_flows: 512,
            max_udp_flows: 512,
            max_icmp_flows: 128,
            max_inflight_dns: 64,
            relay_host_local: false,
        }
    }
}

/// Loopback, link-local, unspecified, multicast or broadcast. Private ranges
/// are not host-local: they are legitimate destinations.
pub open spec fn host_local(ip: IpAddr) -> bool {
    match unmapped(ip) {
        IpAddr::V4(bits) => {
            ||| bits / 0x100_0000 == 127  // 127.0.0.0/8
            ||| bits / 0x1_0000 == 0xA9FE  // 169.254.0.0/16
            ||| bits == 0
            ||| bits / 0x1000_0000 == 14  // 224.0.0.0/4
            ||| bits == 0xFFFF_FFFF
        },
        IpAddr::V6(bits) => {
            ||| bits == 1
            ||| bits / 0x40_0000_0000_0000_0000_0000_0000_0000 == 0x3FA  // fe80::/10
            ||| bits == 0
            ||| bits / 0x100_0000_0000_0000_0000_0000_0000_0000 == 0xFF  // ff00::/8
        },
    }
}

/// The instance-metadata endpoints of cloud hosts: 169.254.169.254,
/// 100.100.100.200 and fd00:ec2::254.
pub open spec fn cloud_metadata(ip: IpAddr) -> bool {
    match unmapped(ip) {
        IpAddr::V4(bits) => bits == 0xA9FE_A9FE || bits == 0x6464_64C8,
        IpAddr::V6(bits) => bits == 0xfd00_0ec2_0000_0000_0000_0000_0000_0254,
    }
}

impl GateConfig {
    /// The addresses of the egress gate's own little network.
    pub open spec fn owns(self, ip: IpAddr) -> bool {
        match unmapped(ip) {
            IpAddr::V4(bits) => bits == self.gateway_ip || bits == self.dns_ip || bits
                == self.guest_ip,
            IpAddr::V6(bits) => bits == self.gateway_ip6 || bits == self.dns_ip6 || bits
                == self.guest_ip6,
        }
    }

    /// Whether `ip` is where the egress gate serves DNS.
    pub open spec fn serves_dns(self, ip: IpAddr) -> bool {
        match ip {
            IpAddr::V4(bits) => bits == self.dns_ip,
            IpAddr::V6(bits) => bits == self.dns_ip6,
        }
    }

    /// Whether the egress gate may relay to `ip` at all.
    pub open spec fn relayable(self, ip: IpAddr) -> bool {
        !cloud_metadata(ip) && !self.owns(ip) && (self.relay_host_local || !host_local(ip))
    }

    pub fn is_own(&self, ip: IpAddr) -> (yes: bool)
        ensures
            yes == self.owns(ip),
    {
        match normalize_ip(ip) {
            IpAddr::V4(bits) => bits == self.gateway_ip || bits == self.dns_ip || bits
                == self.guest_ip,
            IpAddr::V6(bits) => bits == self.gateway_ip6 || bits == self.dns_ip6 || bits
                == self.guest_ip6,
        }
    }

    pub fn is_dns_server(&self, ip: IpAddr) -> (yes: bool)
        ensures
            yes == self.serves_dns(ip),
    {
        match ip {
            IpAddr::V4(bits) => bits == self.dns_ip,
            IpAddr::V6(bits) => bits == self.dns_ip6,
        }
    }

    /// The guard: may the egress gate relay to `ip`, whatever the allow list says?
    pub fn is_relayable(&self, ip: IpAddr) -> (yes: bool)
        ensures
            yes == self.relayable(ip),
    {
        !is_cloud_metadata(ip) && !self.is_own(ip) && (self.relay_host_local || !is_host_local(ip))
    }
}

pub fn is_host_local(ip: IpAddr) -> (yes: bool)
    ensures
        yes == host_local(ip),
{
    match normalize_ip(ip) {
        IpAddr::V4(bits) => bits / 0x100_0000 == 127 || bits / 0x1_0000 == 0xA9FE || bits == 0
            || bits / 0x1000_0000 == 14 || bits == 0xFFFF_FFFF,
        IpAddr::V6(bits) => bits == 1 || bits / 0x40_0000_0000_0000_0000_0000_0000_0000 == 0x3FA
            || bits == 0 || bits / 0x100_0000_0000_0000_0000_0000_0000_0000 == 0xFF,
    }
}

pub fn is_cloud_metadata(ip: IpAddr) -> (yes: bool)
    ensures
        yes == cloud_metadata(ip),
{
    match normalize_ip(ip) {
        IpAddr::V4(bits) => bits == 0xA9FE_A9FE || bits == 0x6464_64C8,
        IpAddr::V6(bits) => bits == 0xfd00_0ec2_0000_0000_0000_0000_0000_0254,
    }
}

/// The metadata endpoints and the egress gate's own addresses are refused in every
/// configuration.
pub proof fn metadata_and_own_addresses_are_never_relayable(config: GateConfig, ip: IpAddr)
    requires
        cloud_metadata(ip) || config.owns(ip),
    ensures
        !config.relayable(ip),
{
}

/// With the default configuration nothing host-local is relayed to.
pub proof fn default_guard_refuses_host_local(ip: IpAddr)
    requires
        host_local(ip),
    ensures
        !default_gate_config().relayable(ip),
{
}

/// Mapped and plain forms of a destination are guarded alike.
pub proof fn guard_sees_through_mapping(config: GateConfig, ip: IpAddr)
    ensures
        config.relayable(ip) == config.relayable(unmapped(ip)),
{
}

/// The number of the address with these four octets.
pub open spec fn dotted_quad(a: u8, b: u8, c: u8, d: u8) -> int {
    a * 16777216 + b * 65536 + c * 256 + d
}

/// The host-local ranges, from their first address to their last: for IPv4
/// 127.0.0.0/8, 169.254.0.0/16, 0.0.0.0, 224.0.0.0 to 239.255.255.255 and
/// 255.255.255.255; for IPv6 `::`, `::1`, fe80:: up to the end of febf, and all
/// from ff00:: on. A mapped address is that of the IPv4 address it embeds.
pub proof fn host_local_ranges(ip: IpAddr)
    ensures
        host_local(ip) <==> match ip {
            IpAddr::V4(bits) => is_local_quad(bits as int),
            IpAddr::V6(bits) => if 0xffff_0000_0000 <= bits <= 0xffff_ffff_ffff {
                is_local_quad(bits - 0xffff_0000_0000)
            } else {
                bits <= 1 || 0xfe80_0000_0000_0000_0000_0000_0000_0000 <= bits
                    < 0xfec0_0000_0000_0000_0000_0000_0000_0000 || bits
                    >= 0xff00_0000_0000_0000_0000_0000_0000_0000
            },
        },
{
}

/// Whether the IPv4 address with this number is in a host-local range.
pub open spec fn is_local_quad(bits: int) -> bool {
    ||| dotted_quad(127, 0, 0, 0) <= bits <= dotted_quad(127, 255, 255, 255)
    ||| dotted_quad(169, 254, 0, 0) <= bits <= dotted_quad(169, 254, 255, 255)
    ||| bits == dotted_quad(0, 0, 0, 0)
    ||| dotted_quad(224, 0, 0, 0) <= bits <= dotted_quad(239, 255, 255, 255)
    ||| bits == dotted_quad(255, 255, 255, 255)
}

/// The metadata endpoints: 169.254.169.254 and 100.100.100.200, plain or
/// mapped, and fd00:ec2::254.
pub proof fn metadata_endpoints(ip: IpAddr)
    ensures
        cloud_metadata(ip) <==> match ip {
            IpAddr::V4(bits) => bits == dotted_quad(169, 254, 169, 254) || bits == dotted_quad(
                100,
                100,
                100,
                200,
            ),
            IpAddr::V6(bits) => bits == 0xffff_0000_0000 + dotted_quad(169, 254, 169, 254) || bits
                == 0xffff_0000_0000 + dotted_quad(100, 100, 100, 200) || bits
                == 0xfd00_0ec2_0000_0000_0000_0000_0000_0254,
        },
{
}

/// What the guard lets through: exactly what is no metadata endpoint, none of
/// the gateway, the DNS server and the guest in either family, and, unless
/// host-local relaying is on, not host-local.
pub proof fn guard_is_exact(config: GateConfig, ip: IpAddr)
    ensures
        config.relayable(ip) <==> {
            &&& !cloud_metadata(ip)
            &&& unmapped(ip) != IpAddr::V4(config.gateway_ip)
            &&& unmapped(ip) != IpAddr::V4(config.dns_ip)
            &&& unmapped(ip) != IpAddr::V4(config.guest_ip)
            &&& unmapped(ip) != IpAddr::V6(config.gateway_ip6)
            &&& unmapped(ip) != IpAddr::V6(config.dns_ip6)
            &&& unmapped(ip) != IpAddr::V6(config.guest_ip6)
            &&& config.relay_host_local || !host_local(ip)
        },
        config.owns(ip) <==> {
            ||| unmapped(ip) == IpAddr::V4(config.gateway_ip)
            ||| unmapped(ip) == IpAddr::V4(config.dns_ip)
            ||| unmapped(ip) == IpAddr::V4(config.guest_ip)
            ||| unmapped(ip) == IpAddr::V6(config.gateway_ip6)
            ||| unmapped(ip) == IpAddr::V6(config.dns_ip6)
            ||| unmapped(ip) == IpAddr::V6(config.guest_ip6)
        },
        config.serves_dns(ip) <==> ip == IpAddr::V4(config.dns_ip) || ip == IpAddr::V6(
            config.dns_ip6,
        ),
{
}

/// The default network: gateway, DNS server and guest are hosts 2, 3 and 15 of
/// 10.0.2.0/24, and hosts 2, 3 and 0x15 of fd00:6d78:63::/64; 512 flows each of
/// TCP and UDP, 128 of ping and 64 resolutions at once; thirty seconds idle;
/// and the guard is on.
pub proof fn default_network()
    ensures
        ({
            let config = default_gate_config();
            &&& config.gateway_ip == dotted_quad(10, 0, 2, 2)
            &&& config.dns_ip == dotted_quad(10, 0, 2, 3)
            &&& config.guest_ip == dotted_quad(10, 0, 2, 15)
            &&& config.prefix_len == 24
            &&& config.gateway_ip6 == 0xfd00_6d78_0063_0000_0000_0000_0000_0000 + 2
            &&& config.dns_ip6 == 0xfd00_6d78_0063_0000_0000_0000_0000_0000 + 3
            &&& config.guest_ip6 == 0xfd00_6d78_0063_0000_0000_0000_0000_0000 + 0x15
            &&& config.prefix_len6 == 64
            &&& config.udp_idle == 30 * 1_000_000_000
            &&& config.max_tcp_flows == 512
            &&& config.max_udp_flows == 512
            &&& config.max_icmp_flows == 128
            &&& config.max_inflight_dns == 64
            &&& !config.relay_host_local
        }),
{
}

} // verus!
