//! Classification of IPv4 addresses.

use crate::rng::random_u32;
use vstd::prelude::*;

verus! {

/// The IANA special-purpose block an address belongs to.
#[derive(PartialEq, Eq, Structural, Clone, Copy, PartialOrd, Ord, Debug, Hash)]
pub enum Ipv4AddrClass {
    Unspecified,
    CurrentNetwork,
    Private,
    CarrierNat,
    Loopback,
    LinkLocal,
    ProtocolAssignments,
    Testnet,
    Ipv6Relay,
    BenchmarkTests,
    Multicast,
    Reserved,
    Broadcast,
    Global,
}

/// The class of `ip`: the first block of the table that contains it.
pub open spec fn class_of(ip: u32) -> Ipv4AddrClass {
    if ip == 0x0000_0000 {
        Ipv4AddrClass::Unspecified
    } else if ip < 0x0100_0000 {
        Ipv4AddrClass::CurrentNetwork
    } else if 0x0a00_0000 <= ip < 0x0b00_0000 {
        Ipv4AddrClass::Private
    } else if 0x6440_0000 <= ip < 0x6480_0000 {
        Ipv4AddrClass::CarrierNat
    } else if 0x7f00_0000 <= ip < 0x8000_0000 {
        Ipv4AddrClass::Loopback
    } else if 0xa9fe_0000 <= ip < 0xa9ff_0000 {
        Ipv4AddrClass::LinkLocal
    } else if 0xac10_0000 <= ip < 0xac20_0000 {
        Ipv4AddrClass::Private
    } else if 0xc000_0000 <= ip < 0xc000_0100 {
        Ipv4AddrClass::ProtocolAssignments
    } else if 0xc000_0200 <= ip < 0xc000_0300 {
        Ipv4AddrClass::Testnet
    } else if 0xc058_6300 <= ip < 0xc058_6400 {
        Ipv4AddrClass::Ipv6Relay
    } else if 0xc0a8_0000 <= ip < 0xc0a9_0000 {
        Ipv4AddrClass::Private
    } else if 0xc612_0000 <= ip < 0xc614_0000 {
        Ipv4AddrClass::BenchmarkTests
    } else if 0xc633_6400 <= ip < 0xc633_6500 {
        Ipv4AddrClass::Testnet
    } else if 0xcb00_7100 <= ip < 0xcb00_7200 {
        Ipv4AddrClass::Testnet
    } else if 0xe000_0000 <= ip < 0xf000_0000 {
        Ipv4AddrClass::Multicast
    } else if 0xf000_0000 <= ip < 0xffff_ffff {
        Ipv4AddrClass::Reserved
    } else if ip == 0xffff_ffff {
        Ipv4AddrClass::Broadcast
    } else {
        Ipv4AddrClass::Global
    }
}

/// 127.0.0.0/8.
pub open spec fn is_loopback(ip: u32) -> bool {
    0x7f00_0000 <= ip < 0x8000_0000
}

/// 10.0.0.0/8, 172.16.0.0/12 or 192.168.0.0/16.
pub open spec fn is_private(ip: u32) -> bool {
    ||| 0x0a00_0000 <= ip < 0x0b00_0000
    ||| 0xac10_0000 <= ip < 0xac20_0000
    ||| 0xc0a8_0000 <= ip < 0xc0a9_0000
}

/// 169.254.0.0/16.
pub open spec fn is_link_local(ip: u32) -> bool {
    0xa9fe_0000 <= ip < 0xa9ff_0000
}

/// 224.0.0.0/4.
pub open spec fn is_multicast(ip: u32) -> bool {
    0xe000_0000 <= ip < 0xf000_0000
}

/// 255.255.255.255.
pub open spec fn is_broadcast(ip: u32) -> bool {
    ip == 0xffff_ffff
}

/// 192.0.2.0/24, 198.51.100.0/24 or 203.0.113.0/24.
pub open spec fn is_documentation(ip: u32) -> bool {
    ||| 0xc000_0200 <= ip < 0xc000_0300
    ||| 0xc633_6400 <= ip < 0xc633_6500
    ||| 0xcb00_7100 <= ip < 0xcb00_7200
}

/// 240.0.0.0/4, the broadcast address included.
pub open spec fn is_reserved(ip: u32) -> bool {
    ip >= 0xf000_0000
}

/// An address is global when it lies in none of the loopback, private,
/// link-local, multicast, broadcast, documentation and reserved blocks.
pub open spec fn is_global_addr(ip: u32) -> bool {
    !(is_loopback(ip) || is_private(ip) || is_link_local(ip) || is_multicast(ip) || is_broadcast(
        ip,
    ) || is_documentation(ip) || is_reserved(ip))
}

/// The netmask with `bits` leading ones; all ones from 32 bits on.
pub open spec fn netmask_of(bits: u8) -> u32 {
    if bits >= 32 {
        0xffff_ffff
    } else {
        !(0xffff_ffffu32 >> (bits as u32))
    }
}

/// Operations on an IPv4 address held as a `u32`.
pub trait Ipv4AddrExt: Sized {
    /// The address as a number.
    spec fn value(&self) -> u32;

    /// One uniformly drawn address, kept only if it is global.
    fn random_global() -> (r: Option<Self>)
        ensures
            r matches Some(ip) ==> is_global_addr(ip.value()),
    ;

    /// Whether this is a global address.
    fn is_global(&self) -> (r: bool)
        ensures
            r == is_global_addr(self.value()),
    ;

    /// Whether this address lies in 240.0.0.0/4.
    fn is_reserved_addr(&self) -> (r: bool)
        ensures
            r == is_reserved(self.value()),
    ;

    /// Classifies the address.
    fn class(&self) -> (r: Ipv4AddrClass)
        ensures
            r == class_of(self.value()),
    ;

    /// The netmask with `bits` leading ones.
    fn from_netmask_bits(bits: u8) -> (r: Self)
        requires
            bits < 32,
        ensures
            r.value() == netmask_of(bits),
    ;
}

impl Ipv4AddrExt for u32 {
    open spec fn value(&self) -> u32 {
        *self
    }

    fn random_global() -> (r: Option<u32>) {
        let x: u32 = random_u32();
        global_or_none(x)
    }

    fn is_global(&self) -> (r: bool) {
        let ip: u32 = *self;
        let loopback = 0x7f00_0000 <= ip && ip < 0x8000_0000;
        let private = (0x0a00_0000 <= ip && ip < 0x0b00_0000) || (0xac10_0000 <= ip && ip
            < 0xac20_0000) || (0xc0a8_0000 <= ip && ip < 0xc0a9_0000);
        let link_local = 0xa9fe_0000 <= ip && ip < 0xa9ff_0000;
        let multicast = 0xe000_0000 <= ip && ip < 0xf000_0000;
        let broadcast = ip == 0xffff_ffff;
        let documentation = (0xc000_0200 <= ip && ip < 0xc000_0300) || (0xc633_6400 <= ip && ip
            < 0xc633_6500) || (0xcb00_7100 <= ip && ip < 0xcb00_7200);
        !(loopback || private || link_local || multicast || broadcast || documentation
            || ip.is_reserved_addr())
    }

    fn is_reserved_addr(&self) -> (r: bool) {
        let ip: u32 = *self;
        assert(ip & 0xf000_0000 == 0xf000_0000 <==> ip >= 0xf000_0000) by (bit_vector);
        ip & 0xf000_0000 == 0xf000_0000
    }

    fn class(&self) -> (r: Ipv4AddrClass) {
        let ip: u32 = *self;
        if ip == 0x0000_0000 {
            Ipv4AddrClass::Unspecified
        } else if ip < 0x0100_0000 {
            Ipv4AddrClass::CurrentNetwork
        } else if 0x0a00_0000 <= ip && ip < 0x0b00_0000 {
            Ipv4AddrClass::Private
        } else if 0x6440_0000 <= ip && ip < 0x6480_0000 {
            Ipv4AddrClass::CarrierNat
        } else if 0x7f00_0000 <= ip && ip < 0x8000_0000 {
            Ipv4AddrClass::Loopback
        } else if 0xa9fe_0000 <= ip && ip < 0xa9ff_0000 {
            Ipv4AddrClass::LinkLocal
        } else if 0xac10_0000 <= ip && ip < 0xac20_0000 {
            Ipv4AddrClass::Private
        } else if 0xc000_0000 <= ip && ip < 0xc000_0100 {
            Ipv4AddrClass::ProtocolAssignments
        } else if 0xc000_0200 <= ip && ip < 0xc000_0300 {
            Ipv4AddrClass::Testnet
        } else if 0xc058_6300 <= ip && ip < 0xc058_6400 {
            Ipv4AddrClass::Ipv6Relay
        } else if 0xc0a8_0000 <= ip && ip < 0xc0a9_0000 {
            Ipv4AddrClass::Private
        } else if 0xc612_0000 <= ip && ip < 0xc614_0000 {
            Ipv4AddrClass::BenchmarkTests
        } else if 0xc633_6400 <= ip && ip < 0xc633_6500 {
            Ipv4AddrClass::Testnet
        } else if 0xcb00_7100 <= ip && ip < 0xcb00_7200 {
            Ipv4AddrClass::Testnet
        } else if 0xe000_0000 <= ip && ip < 0xf000_0000 {
            Ipv4AddrClass::Multicast
        } else if 0xf000_0000 <= ip && ip < 0xffff_ffff {
            Ipv4AddrClass::Reserved
        } else if ip == 0xffff_ffff {
            Ipv4AddrClass::Broadcast
        } else {
            Ipv4AddrClass::Global
        }
    }

    fn from_netmask_bits(bits: u8) -> (r: u32) {
        !(0xffff_ffffu32 >> (bits as u32))
    }
}

/// Keeps a drawn address exactly when it is global.
pub fn global_or_none(x: u32) -> (r: Option<u32>)
    ensures
        r == (if is_global_addr(x) {
            Some(x)
        } else {
            None
        }),
{
    if x.is_global() {
        Some(x)
    } else {
        None
    }
}

} // verus!

verus! {

/// An IPv4 socket address: an address and a port.
#[derive(PartialEq, Eq, Structural, Clone, Copy, Debug, Hash)]
pub struct SocketAddrV4 {
    pub ip: u32,
    pub port: u16,
}

impl SocketAddrV4 {
    /// The socket address as one number: the address above the port.
    pub open spec fn spec_key(&self) -> u64 {
        (self.ip as u64 * 0x1_0000 + self.port as u64) as u64
    }

    /// Builds a socket address.
    pub fn new(ip: u32, port: u16) -> (r: Self)
        ensures
            r == (SocketAddrV4 { ip, port }),
    {
        SocketAddrV4 { ip, port }
    }

    /// The address.
    pub fn ip(&self) -> (r: u32)
        ensures
            r == self.ip,
    {
        self.ip
    }

    /// The port.
    pub fn port(&self) -> (r: u16)
        ensures
            r == self.port,
    {
        self.port
    }

    /// The socket address as one number, by which maps are keyed.
    pub fn key(&self) -> (r: u64)
        ensures
            r == self.spec_key(),
    {
        self.ip as u64 * 0x1_0000 + self.port as u64
    }

    /// Different socket addresses have different keys.
    pub proof fn lemma_key_injective(a: SocketAddrV4, b: SocketAddrV4)
        ensures
            a.spec_key() == b.spec_key() <==> a == b,
    {
    }
}

} // verus!
