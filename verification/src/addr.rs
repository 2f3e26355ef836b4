//! IP addresses as the routing table holds them: a v4 address is its 32-bit
//! value, a v6 address its 128-bit value. The two allocator counters advance
//! through the v4 space one address at a time; v6 addresses can only be given
//! explicitly, never allocated.

use vstd::prelude::*;
use crate::text::{decimal_seq, hex_seq, push_decimal, push_hex};

verus! {

/// An IP address, by numeric value.
#[derive(Clone, Copy, PartialEq, Eq, Structural, Debug, Hash)]
#[allow(inconsistent_fields)]
pub enum IpAddress {
    V4 { bits: u32 },
    V6 { bits: u128 },
}

/// An address and a port: one end of a forwarding.
#[derive(Clone, Copy, PartialEq, Eq, Structural, Debug)]
pub struct SocketAddress {
    pub addr: IpAddress,
    pub port: u16,
}

impl IpAddress {
    pub open spec fn is_v4(&self) -> bool {
        self matches IpAddress::V4 { .. }
    }

    /// The 32-bit value of a v4 address (zero on a v6 address, which never
    /// stands where this is read).
    pub open spec fn v4_bits(&self) -> u32 {
        match self {
            IpAddress::V4 { bits } => *bits,
            IpAddress::V6 { .. } => 0,
        }
    }

    /// The text form of the address: dotted decimal octets for v4, the eight
    /// colon-separated hexadecimal groups, leading zeroes dropped and without
    /// `::` shortening, for v6.
    pub open spec fn display_seq(&self) -> Seq<char> {
        match self {
            IpAddress::V4 { bits } => ipv4_seq(*bits),
            IpAddress::V6 { bits } => ipv6_seq(*bits),
        }
    }

    /// Writes the address as text (`display_seq`).
    pub fn to_display_string(&self) -> (s: String)
        ensures
            s@ == self.display_seq(),
    {
        match self {
            IpAddress::V4 { bits } => {
                let b = *bits;
                let mut s = String::new();
                push_decimal(&mut s, ((b >> 24) & 0xFF) as usize);
                s.push('.');
                push_decimal(&mut s, ((b >> 16) & 0xFF) as usize);
                s.push('.');
                push_decimal(&mut s, ((b >> 8) & 0xFF) as usize);
                s.push('.');
                push_decimal(&mut s, (b & 0xFF) as usize);
                proof {
                    assert(s@ =~= ipv4_seq(b));
                }
                s
            },
            IpAddress::V6 { bits } => {
                let b = *bits;
                let mut s = String::new();
                push_hex_group(&mut s, b >> 112);
                s.push(':');
                push_hex_group(&mut s, b >> 96);
                s.push(':');
                push_hex_group(&mut s, b >> 80);
                s.push(':');
                push_hex_group(&mut s, b >> 64);
                s.push(':');
                push_hex_group(&mut s, b >> 48);
                s.push(':');
                push_hex_group(&mut s, b >> 32);
                s.push(':');
                push_hex_group(&mut s, b >> 16);
                s.push(':');
                push_hex_group(&mut s, b);
                proof {
                    assert(s@ =~= ipv6_seq(b));
                }
                s
            },
        }
    }
}

/// Appends the lowest 16 bits of `x` as one hexadecimal group.
fn push_hex_group(s: &mut String, x: u128)
    ensures
        final(s)@ == old(s)@ + hex_seq((x & 0xFFFF) as nat),
{
    proof {
        assert((x & 0xFFFF) <= 0xFFFF) by (bit_vector);
    }
    push_hex(s, (x & 0xFFFF) as usize);
}

/// Dotted-decimal text of a v4 address value.
pub open spec fn ipv4_seq(bits: u32) -> Seq<char> {
    decimal_seq(((bits >> 24) & 0xFF) as nat) + seq!['.'] + decimal_seq(((bits >> 16) & 0xFF) as nat)
        + seq!['.'] + decimal_seq(((bits >> 8) & 0xFF) as nat) + seq!['.'] + decimal_seq(
        (bits & 0xFF) as nat,
    )
}

/// Hexadecimal-groups text of a v6 address value.
pub open spec fn ipv6_seq(bits: u128) -> Seq<char> {
    hex_seq(((bits >> 112) & 0xFFFF) as nat) + seq![':'] + hex_seq(((bits >> 96) & 0xFFFF) as nat)
        + seq![':'] + hex_seq(((bits >> 80) & 0xFFFF) as nat) + seq![':'] + hex_seq(
        ((bits >> 64) & 0xFFFF) as nat,
    ) + seq![':'] + hex_seq(((bits >> 48) & 0xFFFF) as nat) + seq![':'] + hex_seq(
        ((bits >> 32) & 0xFFFF) as nat,
    ) + seq![':'] + hex_seq(((bits >> 16) & 0xFFFF) as nat) + seq![':'] + hex_seq(
        (bits & 0xFFFF) as nat,
    )
}

/// Stepping a counter to the next address. Implemented for `IpAddress` on the
/// v4 space only: a v6 counter cannot be advanced (the allocator does not
/// serve v6), and the last v4 value cannot be advanced either — the caller
/// treats that as address-space exhaustion instead of wrapping around.
pub trait Increment: Sized {
    /// Whether the value has a successor this trait will step to.
    spec fn can_increment(&self) -> bool;

    /// The successor stepped to.
    spec fn incremented(&self) -> Self;

    /// Advances `self` to its successor and returns the new value.
    fn increment(&mut self) -> (r: Self)
        requires
            old(self).can_increment(),
        ensures
            *final(self) == old(self).incremented(),
            r == old(self).incremented(),
    ;
}

impl IpAddress {
    /// Whether the allocator may step this counter once more
    /// (`Increment::can_increment`).
    pub fn can_allocate_next(&self) -> (r: bool)
        ensures
            r == self.can_increment(),
    {
        match self {
            IpAddress::V4 { bits } => *bits < 0xFFFF_FFFF,
            IpAddress::V6 { .. } => false,
        }
    }
}

impl Increment for IpAddress {
    open spec fn can_increment(&self) -> bool {
        self.is_v4() && self.v4_bits() < u32::MAX
    }

    open spec fn incremented(&self) -> Self {
        IpAddress::V4 { bits: (self.v4_bits() + 1) as u32 }
    }

    fn increment(&mut self) -> (r: Self) {
        let bits = match self {
            IpAddress::V4 { bits } => *bits,
            IpAddress::V6 { .. } => 0,
        };
        *self = IpAddress::V4 { bits: bits + 1 };
        IpAddress::V4 { bits: bits + 1 }
    }
}

} // verus!
