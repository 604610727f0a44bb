//! IP addresses as plain numbers.

use vstd::prelude::*;
use crate::bytes::{be_bytes, push_u128, push_u32};

verus! {

/// An IP address, held as the number that its octets spell in network order.
#[derive(Clone, Copy, Debug, PartialEq, Eq, Structural, Hash)]
pub enum IpAddr {
    V4(u32),
    V6(u128),
}

impl IpAddr {
    /// The octets in network order.
    pub open spec fn octets(self) -> Seq<u8> {
        match self {
            IpAddr::V4(bits) => be_bytes(bits as nat, 4),
            IpAddr::V6(bits) => be_bytes(bits as nat, 16),
        }
    }

    pub open spec fn same_family(self, other: IpAddr) -> bool {
        self is V4 <==> other is V4
    }

    /// Appends the octets in network order.
    pub fn push_octets(&self, out: &mut Vec<u8>)
        ensures
            final(out)@ == old(out)@ + self.octets(),
    {
        match *self {
            IpAddr::V4(bits) => push_u32(out, bits),
            IpAddr::V6(bits) => push_u128(out, bits),
        }
    }
}

} // verus!
