//! IPv4 address ranges: a base address and a prefix length.

use crate::addr::{class_of, netmask_of, Ipv4AddrClass, Ipv4AddrExt};
use crate::rng::{random_u32, random_u8};
use vstd::prelude::*;
use vstd::string::*;

verus! {

/// A range of IPv4 addresses with a common prefix.
#[derive(Clone, Copy, Debug)]
pub struct Ipv4Range {
    addr: u32,
    bits: u8,
}

/// The mask of the host part below a prefix of `bits` bits.
pub open spec fn host_mask_of(bits: u8) -> u32 {
    if bits >= 32 {
        0
    } else {
        0xffff_ffffu32 >> (bits as u32)
    }
}

/// Whether `a` and `b` agree on their `bits` most significant bits.
pub open spec fn same_prefix(a: u32, b: u32, bits: u8) -> bool {
    if bits == 0 {
        true
    } else if bits >= 32 {
        a == b
    } else {
        a >> ((32 - bits) as u32) == b >> ((32 - bits) as u32)
    }
}

/// Base address and prefix length of the private network that two bytes
/// select.
pub open spec fn local_subnet_of(kind: u8, block: u8) -> (u32, u8) {
    if kind % 3 == 0 {
        (0x0a00_0000u32, 8u8)
    } else if kind % 3 == 1 {
        ((0xac10_0000 + (block % 16) * 0x1_0000) as u32, 16u8)
    } else {
        ((0xc0a8_0000 + block * 0x100) as u32, 24u8)
    }
}

proof fn lemma_and_zero(a: u32)
    by (bit_vector)
    ensures
        a & 0 == 0,
        a & 0xffff_ffff == a,
{
}

proof fn lemma_private_blocks(block: u8)
    by (bit_vector)
    ensures
        0u32 & (0xffff_ffffu32 >> 0u32) == 0,
        0x0a00_0000u32 & (0xffff_ffffu32 >> 8u32) == 0,
        block & 0x0f == block % 16,
        block < 16 ==> (0xac10_0000u32 | ((block as u32) << 16u32)) & (0xffff_ffffu32 >> 16u32)
            == 0,
        block < 16 ==> (0xac10_0000u32 | ((block as u32) << 16u32)) == 0xac10_0000u32 + (
        block as u32) * 0x1_0000u32,
        (0xc0a8_0000u32 | ((block as u32) << 8u32)) & (0xffff_ffffu32 >> 24u32) == 0,
        (0xc0a8_0000u32 | ((block as u32) << 8u32)) == 0xc0a8_0000u32 + (block as u32) * 0x100u32,
{
}

proof fn lemma_leading_zeros_prefix(a: u32, b: u32, bits: u8)
    requires
        1 <= bits <= 32,
    ensures
        (a ^ b).leading_zeros() >= bits <==> same_prefix(a, b, bits),
{
    let x = a ^ b;
    let lz = x.leading_zeros();
    vstd::std_specs::bits::axiom_u32_leading_zeros(x);
    assert(x == 0 <==> a == b) by (bit_vector)
        requires
            x == a ^ b,
    ;
    if bits < 32 {
        let s: u32 = (32 - bits) as u32;
        assert(a >> s == b >> s <==> x >> s == 0) by (bit_vector)
            requires
                x == a ^ b,
                s < 32,
        ;
        if lz >= bits {
            if lz < 32 {
                let t: u32 = (32 - lz) as u32;
                assert(x >> t == 0 && t <= s && s < 32 ==> x >> s == 0) by (bit_vector);
            }
        } else {
            let p: u32 = (31 - lz) as u32;
            assert((x >> p) & 1 != 0 && s <= p && p < 32 ==> x >> s != 0) by (bit_vector);
        }
    }
}

impl Ipv4Range {
    /// The base address has no bit set outside the prefix, and the prefix is
    /// at most 32 bits long.
    pub open spec fn wf(&self) -> bool {
        self.prefix_len() <= 32 && self.base() & host_mask_of(self.prefix_len()) == 0
    }

    /// The range with the given base address and prefix length.
    pub closed spec fn of(base: u32, bits: u8) -> Ipv4Range {
        Ipv4Range { addr: base, bits }
    }

    /// A range is known by its base address and its prefix length.
    pub proof fn lemma_of(self)
        ensures
            self == Ipv4Range::of(self.base(), self.prefix_len()),
            forall|base: u32, bits: u8|
                (#[trigger] Ipv4Range::of(base, bits)).base() == base && Ipv4Range::of(
                    base,
                    bits,
                ).prefix_len() == bits,
    {
    }

    /// The lowest address of the range.
    pub closed spec fn base(&self) -> u32 {
        self.addr
    }

    /// The length of the common prefix.
    pub closed spec fn prefix_len(&self) -> u8 {
        self.bits
    }

    /// Whether `ip` agrees with the base address on the prefix.
    pub open spec fn covers(&self, ip: u32) -> bool {
        same_prefix(ip, self.base(), self.prefix_len())
    }

    /// The class of the range: that of its base address, and global for the
    /// range of all addresses.
    pub open spec fn class(&self) -> Ipv4AddrClass {
        if self.prefix_len() == 0 {
            Ipv4AddrClass::Global
        } else {
            class_of(self.base())
        }
    }

    /// The range with the given prefix length that contains `addr`.
    pub fn new(addr: u32, bits: u8) -> (r: Self)
        requires
            bits <= 32,
        ensures
            r.wf(),
            r == Ipv4Range::of(addr & netmask_of(bits), bits),
            r.prefix_len() == bits,
            r.base() == addr & netmask_of(bits),
    {
        let mask: u32 = if bits >= 32 {
            0xffff_ffff
        } else {
            !(0xffff_ffffu32 >> (bits as u32))
        };
        proof {
            let b: u32 = bits as u32;
            if bits < 32 {
                assert((addr & !(0xffff_ffffu32 >> b)) & (0xffff_ffffu32 >> b) == 0)
                    by (bit_vector);
            } else {
                lemma_and_zero(addr & 0xffff_ffffu32);
            }
        }
        Ipv4Range { addr: addr & mask, bits }
    }

    /// The range that holds `addr` alone.
    pub fn from_addr(addr: u32) -> (r: Self)
        ensures
            r.wf(),
            r == Ipv4Range::of(addr, 32),
            r.base() == addr,
            r.prefix_len() == 32,
    {
        proof {
            lemma_and_zero(addr);
        }
        Ipv4Range { addr, bits: 32 }
    }

    /// The range of all addresses, 0.0.0.0/0.
    pub fn global() -> (r: Self)
        ensures
            r.wf(),
            r == Ipv4Range::of(0, 0),
            r.base() == 0,
            r.prefix_len() == 0,
    {
        proof {
            lemma_private_blocks(0);
        }
        Ipv4Range { addr: 0, bits: 0 }
    }

    /// The private network 10.0.0.0/8.
    pub fn local_subnet_10() -> (r: Self)
        ensures
            r.wf(),
            r.base() == 0x0a00_0000,
            r.prefix_len() == 8,
    {
        proof {
            lemma_private_blocks(0);
        }
        Ipv4Range { addr: 0x0a00_0000, bits: 8 }
    }

    /// The private network 172.(16 | block).0.0/16.
    pub fn local_subnet_172(block: u8) -> (r: Self)
        requires
            block < 16,
        ensures
            r.wf(),
            r.base() == 0xac10_0000 + block * 0x1_0000,
            r.prefix_len() == 16,
    {
        let addr: u32 = 0xac10_0000u32 | ((block as u32) << 16);
        proof {
            lemma_private_blocks(block);
        }
        Ipv4Range { addr, bits: 16 }
    }

    /// The private network 192.168.block.0/24.
    pub fn local_subnet_192(block: u8) -> (r: Self)
        ensures
            r.wf(),
            r.base() == 0xc0a8_0000 + block * 0x100,
            r.prefix_len() == 24,
    {
        let addr: u32 = 0xc0a8_0000u32 | ((block as u32) << 8);
        proof {
            lemma_private_blocks(block);
        }
        Ipv4Range { addr, bits: 24 }
    }

    /// The private network picked by two drawn bytes: `kind % 3` selects
    /// 10.0.0.0/8, a 172.16.0.0/12 block or a 192.168.0.0/16 block, and
    /// `block` numbers the block (its low four bits for 172).
    pub fn local_subnet_for(kind: u8, block: u8) -> (r: Self)
        ensures
            r.wf(),
            (r.base(), r.prefix_len()) == local_subnet_of(kind, block),
    {
        let k: u8 = kind % 3;
        if k == 0 {
            Ipv4Range::local_subnet_10()
        } else if k == 1 {
            proof {
                lemma_private_blocks(block);
            }
            Ipv4Range::local_subnet_172(block & 0x0f)
        } else {
            Ipv4Range::local_subnet_192(block)
        }
    }

    /// A randomly chosen private network: one of 10.0.0.0/8, 172.x.0.0/16
    /// with x in 16..32, and 192.168.x.0/24.
    pub fn random_local_subnet() -> (r: Self)
        ensures
            r.wf(),
            exists|kind: u8, block: u8|
                (r.base(), r.prefix_len()) == #[trigger] local_subnet_of(kind, block),
    {
        let kind: u8 = random_u8();
        let block: u8 = if kind % 3 == 0 {
            0
        } else {
            random_u8()
        };
        let r = Ipv4Range::local_subnet_for(kind, block);
        assert((r.base(), r.prefix_len()) == local_subnet_of(kind, block));
        r
    }

    /// The netmask as an address.
    pub fn netmask(&self) -> (r: u32)
        requires
            self.wf(),
        ensures
            r == netmask_of(self.prefix_len()),
    {
        if self.bits >= 32 {
            0xffff_ffff
        } else {
            !(0xffff_ffffu32 >> (self.bits as u32))
        }
    }

    /// The number of prefix bits.
    pub fn netmask_prefix_length(&self) -> (r: u8)
        ensures
            r == self.prefix_len(),
    {
        self.bits
    }

    /// The lowest address of the range.
    pub fn base_addr(&self) -> (r: u32)
        ensures
            r == self.base(),
    {
        self.addr
    }

    /// The default gateway of the range: the base address with its lowest
    /// bit set.
    pub fn gateway_addr(&self) -> (r: u32)
        ensures
            r == self.base() | 1,
    {
        self.addr | 1
    }

    /// The netmask or-ed onto the base address.
    pub fn broadcast_addr(&self) -> (r: u32)
        requires
            self.wf(),
            self.prefix_len() < 32,
        ensures
            r == netmask_of(self.prefix_len()) | self.base(),
    {
        !(0xffff_ffffu32 >> (self.bits as u32)) | self.addr
    }

    /// Whether the range contains `ip`.
    pub fn contains(&self, ip: u32) -> (r: bool)
        requires
            self.wf(),
        ensures
            r == self.covers(ip),
    {
        proof {
            if self.bits >= 1 {
                lemma_leading_zeros_prefix(self.addr, ip, self.bits);
                let s: u32 = (32 - self.bits) as u32;
                if self.bits < 32 {
                    assert((self.addr >> s == ip >> s) == (ip >> s == self.addr >> s));
                }
            }
        }
        (self.addr ^ ip).leading_zeros() >= self.bits as u32
    }

    /// The address that a drawn word `x` stands for: the base address with
    /// the host part of `x`, if that host part is above 1 and the address
    /// has the class of the range.
    pub open spec fn client_addr_of(&self, x: u32) -> Option<u32> {
        let host = x & host_mask_of(self.prefix_len());
        let ip = self.base() | host;
        if host >= 2 && class_of(ip) == self.class() {
            Some(ip)
        } else {
            None
        }
    }

    /// Turns a drawn word into a client address, or rejects it.
    ///
    /// An accepted address lies in the range, is neither the base nor the
    /// gateway address, and has the class of the range.
    pub fn client_addr_for(&self, x: u32) -> (r: Option<u32>)
        requires
            self.wf(),
            self.prefix_len() <= 30,
        ensures
            r == self.client_addr_of(x),
            r matches Some(ip) ==> {
                &&& self.covers(ip)
                &&& ip != self.base()
                &&& ip != (self.base() | 1)
                &&& class_of(ip) == self.class()
            },
    {
        let mask: u32 = 0xffff_ffffu32 >> (self.bits as u32);
        let class = if self.bits == 0 {
            Ipv4AddrClass::Global
        } else {
            self.addr.class()
        };
        let host: u32 = x & mask;
        if host < 2 {
            return None;
        }
        let ip: u32 = self.addr | host;
        if class != ip.class() {
            return None;
        }
        proof {
            lemma_host_part(self.addr, x, self.bits as u32, (32 - self.bits) as u32);
        }
        Some(ip)
    }

    /// Draws one candidate client address. `None` means that the draw was
    /// rejected and the caller should draw again.
    pub fn random_client_addr(&self) -> (r: Option<u32>)
        requires
            self.wf(),
            self.prefix_len() <= 30,
        ensures
            exists|x: u32| r == #[trigger] self.client_addr_of(x),
            r matches Some(ip) ==> {
                &&& self.covers(ip)
                &&& ip != self.base()
                &&& ip != (self.base() | 1)
                &&& class_of(ip) == self.class()
            },
    {
        let x: u32 = random_u32();
        let r = self.client_addr_for(x);
        assert(r == self.client_addr_of(x));
        r
    }

    /// The address that `address_for` gives to a device.
    pub open spec fn device_addr(&self, device: u32) -> int {
        (device & host_mask_of(self.prefix_len())) + 2
    }

    /// Whether `address_for` can number `device`: the host part has room for
    /// more than the base and gateway, and the result is not the address
    /// that `broadcast_addr` returns.
    pub open spec fn can_number(&self, device: u32) -> bool {
        &&& self.prefix_len() <= 30
        &&& self.device_addr(device) <= u32::MAX
        &&& (self.base() | (self.device_addr(device) as u32)) != (netmask_of(self.prefix_len())
            | self.base())
    }

    /// Whether `address_for` can number `device`.
    pub fn can_address(&self, device: u32) -> (r: bool)
        requires
            self.wf(),
        ensures
            r == self.can_number(device),
    {
        if self.bits > 30 {
            return false;
        }
        let mask: u32 = 0xffff_ffffu32 >> (self.bits as u32);
        let host: u32 = device & mask;
        if host > u32::MAX - 2 {
            return false;
        }
        (self.addr | (host + 2)) != self.broadcast_addr()
    }

    /// The address of the device with the given number: the base address
    /// or-ed with the host part of the number plus two.
    pub fn address_for(&self, device: u32) -> (r: u32)
        requires
            self.wf(),
            self.can_number(device),
        ensures
            r == self.base() | (self.device_addr(device) as u32),
    {
        let mask: u32 = 0xffff_ffffu32 >> (self.bits as u32);
        self.addr | ((device & mask) + 2)
    }
}

/// The mirror image of `n`: bit `j` of the result is bit `31 - j` of `n`.
pub open spec fn reverse_bits(n: u32) -> u32 {
    let a = ((n >> 1) & 0x5555_5555) | ((n & 0x5555_5555) << 1);
    let b = ((a >> 2) & 0x3333_3333) | ((a & 0x3333_3333) << 2);
    let c = ((b >> 4) & 0x0f0f_0f0f) | ((b & 0x0f0f_0f0f) << 4);
    let d = ((c >> 8) & 0x00ff_00ff) | ((c & 0x00ff_00ff) << 8);
    (d >> 16) | (d << 16)
}

/// The number of bits needed to write `n`: 0 for 0, 32 for numbers from
/// 2^31 on.
pub open spec fn bit_length(n: u32) -> nat {
    (32 - n.leading_zeros()) as nat
}

/// The `i` lowest bits set.
pub open spec fn low_bits(i: u32) -> u32 {
    if i >= 32 {
        0xffff_ffff
    } else {
        !(0xffff_ffffu32 << i)
    }
}

/// `reverse_bits` reads bit by bit.
pub proof fn lemma_reverse_bits(n: u32, j: u32)
    by (bit_vector)
    requires
        j < 32,
    ensures
        (reverse_bits(n) >> j) & 1 == (n >> ((31 - j) as u32)) & 1,
{
}

proof fn lemma_reverse_step(n: u32, i: u32)
    by (bit_vector)
    requires
        i < 32,
    ensures
        reverse_bits(n & low_bits(0)) == 0,
        n & low_bits(32) == n,
        n & (1u32 << i) != 0 ==> reverse_bits(n & low_bits((i + 1) as u32)) == reverse_bits(
            n & low_bits(i),
        ) | (0x8000_0000u32 >> i),
        n & (1u32 << i) == 0 ==> reverse_bits(n & low_bits((i + 1) as u32)) == reverse_bits(
            n & low_bits(i),
        ),
{
}

/// Mirrors the bits of `n`.
fn mirror(n: u32) -> (r: u32)
    ensures
        r == reverse_bits(n),
{
    let mut r: u32 = 0;
    let mut i: u32 = 0;
    proof {
        lemma_reverse_step(n, 0);
    }
    while i < 32
        invariant
            i <= 32,
            r == reverse_bits(n & low_bits(i)),
        decreases 32 - i,
    {
        proof {
            lemma_reverse_step(n, i);
        }
        if n & (1u32 << i) != 0 {
            r |= 0x8000_0000u32 >> i;
        }
        i += 1;
    }
    r
}

proof fn lemma_shift_monotone(a: u32, b: u32, e: u32)
    by (bit_vector)
    requires
        a <= b,
        e < 32,
        b >> e == 0,
    ensures
        a >> e == 0,
{
}

/// Facts on a sub-range whose prefix is `bits + e` long and whose base is
/// `base | (reverse_bits(n) >> bits)` with `n` below 2^e.
proof fn lemma_candidate(base: u32, n: u32, m: u32, bits: u32, e: u32, s: u32)
    by (bit_vector)
    requires
        bits < 32,
        bits + e <= 32,
        s + bits == 32,
        base & (0xffff_ffffu32 >> bits) == 0,
        e < 32 ==> n >> e == 0,
        e < 32 ==> m >> e == 0,
    ensures
        bits + e < 32 ==> (base | (reverse_bits(n) >> bits)) & (0xffff_ffffu32 >> ((bits + e) as u32))
            == 0,
        (base | (reverse_bits(n) >> bits)) & 0 == 0,
        bits >= 1 ==> (base | (reverse_bits(n) >> bits)) >> s == base >> s,
        n != m ==> (base | (reverse_bits(n) >> bits)) != (base | (reverse_bits(m) >> bits)),
{
}

proof fn lemma_whole_space(base: u32)
    by (bit_vector)
    requires
        base & (0xffff_ffffu32 >> 0) == 0,
    ensures
        base == 0,
        base | (reverse_bits(0) >> 0) == 0,
{
}

proof fn lemma_prefix_narrows(ip: u32, c: u32, less: u32, more: u32)
    by (bit_vector)
    requires
        less <= more < 32,
        ip >> less == c >> less,
    ensures
        ip >> more == c >> more,
{
}

proof fn lemma_prefix_unique(ip: u32, c1: u32, c2: u32, s: u32, b: u32)
    by (bit_vector)
    requires
        1 <= b < 32,
        s + b == 32,
        c1 & (0xffff_ffffu32 >> b) == 0,
        c2 & (0xffff_ffffu32 >> b) == 0,
        ip >> s == c1 >> s,
        ip >> s == c2 >> s,
    ensures
        c1 == c2,
{
}

impl Ipv4Range {
    /// Whether every address of `self` is an address of `outer`.
    pub open spec fn is_within(&self, outer: Ipv4Range) -> bool {
        forall|ip: u32| #[trigger] self.covers(ip) ==> outer.covers(ip)
    }

    /// Whether no address lies in both ranges.
    pub open spec fn is_disjoint_from(&self, other: Ipv4Range) -> bool {
        forall|ip: u32| !(#[trigger] self.covers(ip) && other.covers(ip))
    }

    /// The base address of the sub-range numbered `n`: the mirrored bits
    /// of `n` placed directly below the prefix.
    pub open spec fn candidate(&self, n: u32) -> u32 {
        self.base() | (reverse_bits(n) >> (self.prefix_len() as u32))
    }

    /// Whether the sub-range numbered `n` keeps the class of the range.
    pub open spec fn keeps_class(&self, n: u32) -> bool {
        class_of(self.candidate(n)) == self.class()
    }

    /// The first number from `from` on whose sub-range keeps the class;
    /// 2^32 or more when there is none.
    pub open spec fn next_kept(&self, from: nat) -> nat
        decreases 0x1_0000_0000 - from,
    {
        if from >= 0x1_0000_0000 {
            from
        } else if self.keeps_class(from as u32) {
            from
        } else {
            self.next_kept(from + 1)
        }
    }

    /// The number of the `k`-th sub-range that keeps the class, counted
    /// from 0.
    pub open spec fn nth_kept(&self, k: nat) -> nat
        decreases k,
    {
        if k == 0 {
            self.next_kept(0)
        } else {
            self.next_kept(self.nth_kept((k - 1) as nat) + 1)
        }
    }

    /// Whether the range can be split into `num` parts: enough sub-ranges
    /// keep the class, and their prefix is at most 32 bits long.
    pub open spec fn can_split(&self, num: u32) -> bool {
        &&& num >= 1
        &&& self.prefix_len() < 32
        &&& self.nth_kept((num - 1) as nat) < 0x1_0000_0000
        &&& self.prefix_len() + bit_length(self.nth_kept((num - 1) as nat) as u32) <= 32
    }

    /// The prefix length of the parts of a split into `num`.
    pub open spec fn split_prefix_len(&self, num: u32) -> int {
        self.prefix_len() + bit_length(self.nth_kept((num - 1) as nat) as u32)
    }

    proof fn lemma_next_kept(&self, from: nat)
        ensures
            self.next_kept(from) >= from,
            self.next_kept(from) < 0x1_0000_0000 ==> self.keeps_class(self.next_kept(from) as u32),
        decreases 0x1_0000_0000 - from,
    {
        if from < 0x1_0000_0000 && !self.keeps_class(from as u32) {
            self.lemma_next_kept(from + 1);
        }
    }

    /// The kept numbers increase, and each of them keeps the class.
    pub proof fn lemma_nth_kept(&self, j: nat, k: nat)
        requires
            j <= k,
        ensures
            self.nth_kept(j) + (k - j) <= self.nth_kept(k),
            self.nth_kept(k) < 0x1_0000_0000 ==> self.keeps_class(self.nth_kept(k) as u32),
        decreases k,
    {
        if k == 0 {
            self.lemma_next_kept(0);
        } else {
            self.lemma_next_kept(self.nth_kept((k - 1) as nat) + 1);
            if j < k {
                self.lemma_nth_kept(j, (k - 1) as nat);
            }
        }
    }

    /// Splits the range into `num` parts of equal prefix length that keep
    /// its class.
    ///
    /// Sub-ranges are numbered by a counter whose mirrored bits are placed
    /// below the prefix, so that they fan out from the most significant
    /// bit; numbers whose sub-range leaves the class are passed over. The
    /// parts are the first `num` remaining ones, and their common prefix is
    /// as long as the last number used needs.
    pub fn split(self, num: u32) -> (ret: Vec<Self>)
        requires
            self.wf(),
            self.can_split(num),
        ensures
            self.is_split(num, ret@),
    {
        self.checked_split(num).unwrap()
    }

    /// Whether `parts` is the split of the range into `num`: part `k` is
    /// the `k`-th sub-range that keeps the class. The parts then lie within
    /// the range, keep its class and are pairwise disjoint.
    pub open spec fn is_split(&self, num: u32, parts: Seq<Ipv4Range>) -> bool {
        &&& parts.len() == num
        &&& forall|k: int|
            0 <= k < num ==> {
                &&& (#[trigger] parts[k]).wf()
                &&& parts[k].base() == self.candidate(self.nth_kept(k as nat) as u32)
                &&& parts[k].prefix_len() == self.split_prefix_len(num)
            }
        &&& forall|k: int| 0 <= k < num ==> (#[trigger] parts[k]).is_within(*self)
        &&& forall|k: int| 0 <= k < num ==> (#[trigger] parts[k]).class() == self.class()
        &&& forall|j: int, k: int|
            0 <= j < num && 0 <= k < num && j != k ==> (#[trigger] parts[j]).is_disjoint_from(
                #[trigger] parts[k],
            )
    }

    /// Splits the range into `num` parts if it can be split so, and returns
    /// `None` otherwise.
    pub fn checked_split(self, num: u32) -> (r: Option<Vec<Self>>)
        requires
            self.wf(),
        ensures
            r is Some <==> self.can_split(num),
            r matches Some(ret) ==> self.is_split(num, ret@),
    {
        if num == 0 || self.bits >= 32 {
            return None;
        }
        let mut ret: Vec<Ipv4Range> = Vec::with_capacity(num as usize);
        let mut n: u32 = 0;
        let class = if self.bits == 0 {
            Ipv4AddrClass::Global
        } else {
            self.addr.class()
        };
        loop
            invariant_except_break
                ret.len() < num,
                self.next_kept(n as nat) == self.nth_kept(ret.len() as nat),
            invariant
                self.wf(),
                self.bits < 32,
                num >= 1,
                class == self.class(),
                ret.len() <= num,
                forall|k: int|
                    0 <= k < ret.len() ==> (#[trigger] ret[k]).addr == self.candidate(
                        self.nth_kept(k as nat) as u32,
                    ),
            ensures
                ret.len() == num,
                n == self.nth_kept((num - 1) as nat),
            decreases 0x1_0000_0000 - n,
        {
            let n_reversed: u32 = mirror(n);
            let ip: u32 = self.addr | (n_reversed >> (self.bits as u32));
            proof {
                self.lemma_next_kept(n as nat);
                self.lemma_next_kept(n as nat + 1);
            }
            if class == ip.class() {
                ret.push(Ipv4Range { addr: ip, bits: 0 });
                if ret.len() == num as usize {
                    break ;
                }
            }
            if n == u32::MAX {
                proof {
                    self.lemma_nth_kept(ret.len() as nat, (num - 1) as nat);
                }
                return None;
            }
            n += 1;
        }
        let extra_bits: u32 = 32 - n.leading_zeros();
        if self.bits as u32 + extra_bits > 32 {
            return None;
        }
        let bits: u8 = self.bits + extra_bits as u8;
        let mut i: usize = 0;
        while i < ret.len()
            invariant
                i <= ret.len(),
                ret.len() == num,
                forall|k: int|
                    0 <= k < ret.len() ==> (#[trigger] ret[k]).addr == self.candidate(
                        self.nth_kept(k as nat) as u32,
                    ),
                forall|k: int| 0 <= k < i ==> (#[trigger] ret[k]).bits == bits,
            decreases ret.len() - i,
        {
            let addr: u32 = ret[i].addr;
            ret.set(i, Ipv4Range { addr, bits });
            i += 1;
        }
        proof {
            self.lemma_split_parts(num, ret@);
        }
        Some(ret)
    }

    /// What holds of the parts of a split: they are well-formed, lie
    /// within the range, keep its class and are pairwise disjoint.
    proof fn lemma_split_parts(&self, num: u32, parts: Seq<Ipv4Range>)
        requires
            self.wf(),
            self.can_split(num),
            parts.len() == num,
            forall|k: int|
                0 <= k < num ==> {
                    &&& (#[trigger] parts[k]).addr == self.candidate(self.nth_kept(k as nat) as u32)
                    &&& parts[k].bits == self.split_prefix_len(num)
                },
        ensures
            forall|k: int| 0 <= k < num ==> (#[trigger] parts[k]).wf(),
            forall|k: int| 0 <= k < num ==> (#[trigger] parts[k]).is_within(*self),
            forall|k: int| 0 <= k < num ==> (#[trigger] parts[k]).class() == self.class(),
            forall|j: int, k: int|
                0 <= j < num && 0 <= k < num && j != k ==> (#[trigger] parts[j]).is_disjoint_from(
                    #[trigger] parts[k],
                ),
    {
        let last: u32 = self.nth_kept((num - 1) as nat) as u32;
        let e: u32 = bit_length(last) as u32;
        let b: u32 = self.bits as u32;
        let b2: u32 = (b + e) as u32;
        let s: u32 = (32 - b) as u32;
        vstd::std_specs::bits::axiom_u32_leading_zeros(last);
        assert forall|k: int| 0 <= k < num implies {
            &&& (#[trigger] parts[k]).wf()
            &&& parts[k].is_within(*self)
            &&& parts[k].class() == self.class()
        } by {
            let nk: u32 = self.nth_kept(k as nat) as u32;
            self.lemma_nth_kept(k as nat, (num - 1) as nat);
            self.lemma_nth_kept(0, k as nat);
            if e < 32 {
                lemma_shift_monotone(nk, last, e);
            }
            lemma_candidate(self.addr, nk, nk, b, e, s);
            let c = parts[k].addr;
            assert(parts[k].wf());
            assert(self.keeps_class(nk));
            if parts[k].bits == 0 {
                assert(b == 0 && e == 0);
                assert(last == 0);
                assert(nk == 0);
                lemma_whole_space(self.addr);
            }
            assert forall|ip: u32| #[trigger] parts[k].covers(ip) implies self.covers(ip) by {
                if b >= 1 {
                    if b2 < 32 {
                        lemma_prefix_narrows(ip, c, (32 - b2) as u32, s);
                    }
                }
            }
        }
        assert forall|j: int, k: int| 0 <= j < num && 0 <= k < num && j != k implies (
        #[trigger] parts[j]).is_disjoint_from(#[trigger] parts[k]) by {
            let nj: u32 = self.nth_kept(j as nat) as u32;
            let nk: u32 = self.nth_kept(k as nat) as u32;
            self.lemma_nth_kept(k as nat, (num - 1) as nat);
            self.lemma_nth_kept(j as nat, (num - 1) as nat);
            if j < k {
                self.lemma_nth_kept(j as nat, k as nat);
            } else {
                self.lemma_nth_kept(k as nat, j as nat);
            }
            if e < 32 {
                lemma_shift_monotone(nk, last, e);
                lemma_shift_monotone(nj, last, e);
            }
            lemma_candidate(self.addr, nj, nk, b, e, s);
            lemma_candidate(self.addr, nk, nj, b, e, s);
            let cj = parts[j].addr;
            let ck = parts[k].addr;
            assert(cj != ck);
            assert(b2 >= 1) by {
                if b2 == 0 {
                    assert(last == 0);
                }
            }
            assert forall|ip: u32| !(#[trigger] parts[j].covers(ip) && parts[k].covers(ip)) by {
                if parts[j].covers(ip) && parts[k].covers(ip) {
                    if b2 < 32 {
                        lemma_prefix_unique(ip, cj, ck, (32 - b2) as u32, b2);
                    }
                }
            }
        }
    }
}

proof fn lemma_host_part(base: u32, x: u32, bits: u32, s: u32)
    by (bit_vector)
    requires
        bits <= 30,
        s + bits == 32,
        base & (0xffff_ffffu32 >> bits) == 0,
        x & (0xffff_ffffu32 >> bits) >= 2,
    ensures
        bits >= 1 ==> (base | (x & (0xffff_ffffu32 >> bits))) >> s == base >> s,
        (base | (x & (0xffff_ffffu32 >> bits))) != base,
        (base | (x & (0xffff_ffffu32 >> bits))) != (base | 1),
{
}

/// Why a text is not a range.
#[derive(PartialEq, Eq, Structural, Clone, Copy, Debug)]
pub enum IpRangeParseError {
    /// The text holds no `/`.
    MissingDelimiter,
    /// The text holds more than one `/`.
    ExtraDelimiter,
    /// What stands before the `/` is no address.
    ParseAddr,
    /// What stands behind the `/` is no prefix length.
    ParseNetmaskPrefixLength,
}

/// How many of the first `n` characters are a `/`.
pub open spec fn delimiters(text: Seq<char>, n: int) -> int
    decreases n,
{
    if n <= 0 {
        0
    } else {
        delimiters(text, n - 1) + if text[n - 1] == '/' {
            1int
        } else {
            0int
        }
    }
}

/// Where a text of the form `address/length` is to be cut: at its one
/// `/`.
pub fn find_delimiter(text: &str) -> (r: Result<usize, IpRangeParseError>)
    ensures
        delimiters(text@, text@.len() as int) == 0 ==> r == Err::<usize, IpRangeParseError>(
            IpRangeParseError::MissingDelimiter,
        ),
        delimiters(text@, text@.len() as int) >= 2 ==> r == Err::<usize, IpRangeParseError>(
            IpRangeParseError::ExtraDelimiter,
        ),
        delimiters(text@, text@.len() as int) == 1 ==> (r matches Ok(at) && at < text@.len()
            && text@[at as int] == '/'),
{
    let n: usize = text.unicode_len();
    let mut found: Option<usize> = None;
    let mut i: usize = 0;
    while i < n
        invariant
            i <= n,
            n == text@.len(),
            found is None ==> delimiters(text@, i as int) == 0,
            found matches Some(at) ==> delimiters(text@, i as int) == 1 && at < i && text@[at as int]
                == '/',
        decreases n - i,
    {
        if text.get_char(i) == '/' {
            if found.is_some() {
                proof {
                    lemma_delimiters_grow(text@, i + 1, n as int);
                }
                return Err(IpRangeParseError::ExtraDelimiter);
            }
            found = Some(i);
        }
        i += 1;
    }
    match found {
        Some(at) => Ok(at),
        None => Err(IpRangeParseError::MissingDelimiter),
    }
}

proof fn lemma_delimiters_grow(text: Seq<char>, m: int, n: int)
    requires
        m <= n,
    ensures
        delimiters(text, m) <= delimiters(text, n),
    decreases n - m,
{
    if m < n {
        lemma_delimiters_grow(text, m, n - 1);
    }
}

/// The range that an address and a prefix length, as they were read from a
/// text, stand for. A prefix length above 32 is none.
pub fn from_parts(addr: u32, bits: u8) -> (r: Result<Ipv4Range, IpRangeParseError>)
    ensures
        bits > 32 ==> r == Err::<Ipv4Range, IpRangeParseError>(
            IpRangeParseError::ParseNetmaskPrefixLength,
        ),
        bits <= 32 ==> (r matches Ok(range) && range.wf() && range.prefix_len() == bits
            && range.base() == addr & netmask_of(bits)),
{
    if bits > 32 {
        Err(IpRangeParseError::ParseNetmaskPrefixLength)
    } else {
        Ok(Ipv4Range::new(addr, bits))
    }
}

} // verus!
