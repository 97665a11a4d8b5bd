//! Network address translation between a private subnet and one public
//! address.
//!
//! The NAT is a state machine: it is handed one packet at a time, from the
//! private or from the public side, and answers with the packet to emit, if
//! any, and the side to emit it on.

use crate::addr::SocketAddrV4;
use crate::packet::{
    checksum_offset, destination_of, header_checksum_ok, lemma_checksums, lemma_data_kept,
    lemma_same_frame, lemma_with_destination, lemma_with_source, lemma_with_ttl,
    payload_start, protocol_of, source_of, transport_checksum_ok, ttl_of, with_checksums,
    with_destination, with_source, with_ttl, Packet, Protocol,
};
use crate::port_allocator::PortAllocator;
use crate::port_map::{PortMap, PortMapState};
use crate::range::Ipv4Range;
use std::collections::HashSet;
use vstd::prelude::*;

verus! {

broadcast use vstd::std_specs::hash::group_hash_axioms;

/// What the NAT emits for a packet.
#[derive(Debug)]
pub enum NatOutput {
    /// Nothing: the packet is dropped.
    Drop,
    /// The rewritten packet, on the private side.
    ToPrivate(Vec<u8>),
    /// The rewritten packet, on the public side.
    ToPublic(Vec<u8>),
}

/// What the NAT emits for a packet, as byte sequences.
pub enum Emitted {
    Nothing,
    Private(Seq<u8>),
    Public(Seq<u8>),
}

impl View for NatOutput {
    type V = Emitted;

    open spec fn view(&self) -> Emitted {
        match self {
            NatOutput::Drop => Emitted::Nothing,
            NatOutput::ToPrivate(bytes) => Emitted::Private(bytes@),
            NatOutput::ToPublic(bytes) => Emitted::Public(bytes@),
        }
    }
}

/// The configuration and the mappings of a NAT.
#[verifier::ext_equal]
pub struct NatState {
    pub public_ip: u32,
    pub subnet: Ipv4Range,
    pub hair_pinning: bool,
    pub udp_map: PortMapState,
    pub tcp_map: PortMapState,
    pub blacklist_unrecognized_addrs: bool,
    /// The keys of the blacklisted remote sockets.
    pub blacklisted_addrs: Set<u64>,
}

/// What becomes of an outbound packet, aged already, once the external port
/// of its source is known.
///
/// Without a port it is dropped. With hair-pinning, a packet for the public
/// address goes back to the private side, to the private socket that its
/// destination port leads to when addressed from the external socket of the
/// source; it is dropped if there is no such socket. Any other packet leaves
/// on the public side with the external socket as its source.
pub open spec fn outbound_result(
    aged: Seq<u8>,
    public_ip: u32,
    hair_pinning: bool,
    map: PortMapState,
    port: Option<u16>,
) -> Emitted {
    match port {
        None => Emitted::Nothing,
        Some(port) => {
            let external = SocketAddrV4 { ip: public_ip, port };
            let dest = destination_of(aged);
            if hair_pinning && dest.ip == public_ip {
                match map.inbound_addr(external, dest.port) {
                    Some(private_dest) => Emitted::Private(
                        with_checksums(with_destination(aged, private_dest)),
                    ),
                    None => Emitted::Nothing,
                }
            } else {
                Emitted::Public(with_checksums(with_source(aged, external)))
            }
        },
    }
}

impl NatState {
    /// The subnet and both port maps are in order.
    pub open spec fn wf(self) -> bool {
        self.subnet.wf() && self.udp_map.wf() && self.tcp_map.wf()
    }

    /// Whether the forwarded ports of both protocols are reserved: none of
    /// them is bound to a source or to a pair.
    pub open spec fn forwards_reserved(self) -> bool {
        self.udp_map.forwards_reserved() && self.tcp_map.forwards_reserved()
    }

    /// The port map of a protocol.
    pub open spec fn map_for(self, protocol: Protocol) -> PortMapState {
        match protocol {
            Protocol::Udp => self.udp_map,
            Protocol::Tcp => self.tcp_map,
        }
    }

    /// The state with the port map of a protocol replaced.
    pub open spec fn with_map(self, protocol: Protocol, map: PortMapState) -> NatState {
        match protocol {
            Protocol::Udp => NatState { udp_map: map, ..self },
            Protocol::Tcp => NatState { tcp_map: map, ..self },
        }
    }

    /// Whether a packet from the private side is translated: it is a UDP or
    /// TCP packet, comes from the subnet, and has time to live.
    pub open spec fn accepts_outbound(self, bytes: Seq<u8>) -> bool {
        &&& protocol_of(bytes) is Some
        &&& self.subnet.covers(source_of(bytes).ip)
        &&& ttl_of(bytes) >= 1
    }

    /// Whether `post` and `out` are what a packet from the private side
    /// leaves and yields.
    ///
    /// A packet that is not translated is dropped and changes nothing.
    /// Otherwise its time to live goes down by one, its source is mapped in
    /// the port map of its protocol, and `outbound_result` says what is
    /// emitted.
    pub open spec fn sent_outbound(self, bytes: Seq<u8>, post: NatState, out: Emitted) -> bool {
        if !self.accepts_outbound(bytes) {
            post == self && out == Emitted::Nothing
        } else {
            let protocol = protocol_of(bytes).unwrap();
            let map = post.map_for(protocol);
            let port = map.bound_port(destination_of(bytes), source_of(bytes));
            &&& self.map_for(protocol).mapped(destination_of(bytes), source_of(bytes), port, map)
            &&& post == self.with_map(protocol, map)
            &&& out == outbound_result(
                with_ttl(bytes, (ttl_of(bytes) - 1) as u8),
                self.public_ip,
                self.hair_pinning,
                map,
                port,
            )
        }
    }

    /// Whether a packet from the public side is looked up: it is a UDP or
    /// TCP packet for the public address, has time to live, and its source
    /// is not blacklisted.
    pub open spec fn accepts_inbound(self, bytes: Seq<u8>) -> bool {
        &&& protocol_of(bytes) is Some
        &&& destination_of(bytes).ip == self.public_ip
        &&& ttl_of(bytes) >= 1
        &&& !self.blacklisted_addrs.contains(source_of(bytes).spec_key())
    }

    /// The private socket that a packet from the public side is for.
    pub open spec fn inbound_target(self, bytes: Seq<u8>) -> Option<SocketAddrV4> {
        if self.accepts_inbound(bytes) {
            self.map_for(protocol_of(bytes).unwrap()).inbound_addr(
                source_of(bytes),
                destination_of(bytes).port,
            )
        } else {
            None
        }
    }

    /// What a packet from the public side yields: with a private socket to
    /// go to, the packet with its time to live one lower, that socket as
    /// its destination and new checksums, on the private side; else nothing.
    pub open spec fn inbound_result(self, bytes: Seq<u8>) -> Emitted {
        match self.inbound_target(bytes) {
            Some(private_dest) => Emitted::Private(
                with_checksums(
                    with_destination(with_ttl(bytes, (ttl_of(bytes) - 1) as u8), private_dest),
                ),
            ),
            None => Emitted::Nothing,
        }
    }

    /// The state after a packet from the public side: the source of a
    /// packet that was looked up in vain is blacklisted, if the NAT is to
    /// blacklist unrecognized addresses.
    pub open spec fn after_inbound(self, bytes: Seq<u8>) -> NatState {
        if self.accepts_inbound(bytes) && self.inbound_target(bytes) is None
            && self.blacklist_unrecognized_addrs {
            NatState {
                blacklisted_addrs: self.blacklisted_addrs.insert(source_of(bytes).spec_key()),
                ..self
            }
        } else {
            self
        }
    }
}

impl NatState {
    /// What leaves on the public side is the packet that came in, one hop
    /// older, from the external socket of its source.
    pub proof fn lemma_outbound(self, bytes: Seq<u8>, post: NatState, out: Seq<u8>)
        requires
            self.wf(),
            self.sent_outbound(bytes, post, Emitted::Public(out)),
        ensures
            post.wf(),
            self.forwards_reserved() ==> post.forwards_reserved(),
            self.accepts_outbound(bytes),
            post.public_ip == self.public_ip,
            protocol_of(out) == protocol_of(bytes),
            post.map_for(protocol_of(bytes).unwrap()).bound_port(
                destination_of(bytes),
                source_of(bytes),
            ) == Some(source_of(out).port),
            source_of(out).ip == self.public_ip,
            destination_of(out) == destination_of(bytes),
            ttl_of(out) == ttl_of(bytes) - 1,
    {
        let protocol = protocol_of(bytes).unwrap();
        let map = post.map_for(protocol);
        let port = map.bound_port(destination_of(bytes), source_of(bytes));
        self.map_for(protocol).lemma_mapped(destination_of(bytes), source_of(bytes), port, map);
        let aged = with_ttl(bytes, (ttl_of(bytes) - 1) as u8);
        lemma_with_ttl(bytes, (ttl_of(bytes) - 1) as u8);
        let external = SocketAddrV4 { ip: self.public_ip, port: port.unwrap() };
        lemma_with_source(aged, external);
        lemma_checksums(with_source(aged, external));
        lemma_same_frame(with_source(aged, external), out);
    }

    /// Without symmetric mode, two packets of one source socket leave from
    /// the same external socket, whatever their destinations.
    pub proof fn lemma_cone(
        self,
        first: Seq<u8>,
        second: Seq<u8>,
        mid: NatState,
        post: NatState,
        first_out: Seq<u8>,
        second_out: Seq<u8>,
    )
        requires
            self.wf(),
            protocol_of(first) matches Some(protocol) && self.map_for(protocol).symmetric_map
                is None,
            protocol_of(second) == protocol_of(first),
            source_of(second) == source_of(first),
            self.sent_outbound(first, mid, Emitted::Public(first_out)),
            mid.sent_outbound(second, post, Emitted::Public(second_out)),
        ensures
            source_of(second_out) == source_of(first_out),
    {
        let protocol = protocol_of(first).unwrap();
        self.lemma_outbound(first, mid, first_out);
        mid.lemma_outbound(second, post, second_out);
        self.map_for(protocol).lemma_mapped(
            destination_of(first),
            source_of(first),
            Some(source_of(first_out).port),
            mid.map_for(protocol),
        );
        self.map_for(protocol).lemma_cone_keeps_port(
            source_of(first),
            destination_of(first),
            destination_of(second),
            source_of(first_out).port,
            source_of(second_out).port,
            mid.map_for(protocol),
            post.map_for(protocol),
        );
    }

    /// In symmetric mode, two packets of one source socket to different
    /// destinations leave from different external ports.
    pub proof fn lemma_symmetric(
        self,
        first: Seq<u8>,
        second: Seq<u8>,
        mid: NatState,
        post: NatState,
        first_out: Seq<u8>,
        second_out: Seq<u8>,
    )
        requires
            self.wf(),
            protocol_of(first) matches Some(protocol) && self.map_for(protocol).symmetric_map
                is Some,
            protocol_of(second) == protocol_of(first),
            source_of(second) == source_of(first),
            destination_of(second) != destination_of(first),
            self.sent_outbound(first, mid, Emitted::Public(first_out)),
            mid.sent_outbound(second, post, Emitted::Public(second_out)),
        ensures
            source_of(second_out).port != source_of(first_out).port,
    {
        let protocol = protocol_of(first).unwrap();
        self.lemma_outbound(first, mid, first_out);
        mid.lemma_outbound(second, post, second_out);
        self.map_for(protocol).lemma_symmetric_separates_ports(
            source_of(first),
            destination_of(first),
            destination_of(second),
            source_of(first_out).port,
            source_of(second_out).port,
            mid.map_for(protocol),
            post.map_for(protocol),
        );
    }

    /// A packet from the public side that has a private socket to go to is
    /// delivered: it leaves on the private side for that socket, from the
    /// source that it came from, one hop older and with both checksums right.
    pub proof fn lemma_inbound_delivery(self, bytes: Seq<u8>, target: SocketAddrV4)
        requires
            self.inbound_target(bytes) == Some(target),
        ensures
            self.inbound_result(bytes) matches Emitted::Private(out) && {
                &&& protocol_of(out) == protocol_of(bytes)
                &&& destination_of(out) == target
                &&& source_of(out) == source_of(bytes)
                &&& ttl_of(out) == ttl_of(bytes) - 1
                &&& header_checksum_ok(out)
                &&& transport_checksum_ok(out)
                &&& out.len() == bytes.len()
                &&& forall|j: int|
                    payload_start(bytes) + checksum_offset(protocol_of(bytes).unwrap()) + 2 <= j
                        < bytes.len() ==> #[trigger] out[j] == bytes[j]
            },
    {
        let protocol = protocol_of(bytes).unwrap();
        let aged = with_ttl(bytes, (ttl_of(bytes) - 1) as u8);
        lemma_with_ttl(bytes, (ttl_of(bytes) - 1) as u8);
        lemma_with_destination(aged, target);
        let turned = with_destination(aged, target);
        lemma_checksums(turned);
        let out = with_checksums(turned);
        lemma_same_frame(turned, out);
        lemma_same_frame(bytes, aged);
        lemma_same_frame(bytes, turned);
        assert forall|j: int|
            payload_start(bytes) + checksum_offset(protocol) + 2 <= j < bytes.len() implies
            #[trigger] out[j] == bytes[j] by {
            lemma_data_kept(bytes, protocol, j);
            lemma_data_kept(aged, protocol, j);
            lemma_data_kept(turned, protocol, j);
        }
    }

    /// In port-restricted mode, after a packet has left for a remote socket,
    /// an answer to its external socket is delivered if it comes from that
    /// remote socket, and is dropped if it comes from any other socket. With
    /// the forwarded ports reserved it is delivered to the source of the
    /// packet.
    pub proof fn lemma_port_restricted(
        self,
        sent: Seq<u8>,
        post: NatState,
        out: Seq<u8>,
        answer: Seq<u8>,
    )
        requires
            self.wf(),
            protocol_of(sent) matches Some(protocol) && self.map_for(protocol).allowed_endpoints
                is Some,
            self.sent_outbound(sent, post, Emitted::Public(out)),
            protocol_of(answer) == protocol_of(sent),
            destination_of(answer) == source_of(out),
            post.accepts_inbound(answer),
        ensures
            source_of(answer) != destination_of(sent) ==> post.inbound_result(answer)
                == Emitted::Nothing,
            source_of(answer) == destination_of(sent) ==> post.inbound_result(answer)
                is Private,
            source_of(answer) == destination_of(sent) && !post.map_for(
                protocol_of(sent).unwrap(),
            ).forwards.contains_key(source_of(out).port) ==> post.inbound_target(answer) == Some(
                source_of(sent),
            ),
            source_of(answer) == destination_of(sent) && self.forwards_reserved() ==> (
            post.inbound_result(answer) matches Emitted::Private(back) && {
                &&& destination_of(back) == source_of(sent)
                &&& source_of(back) == source_of(answer)
                &&& ttl_of(back) == ttl_of(answer) - 1
                &&& header_checksum_ok(back)
                &&& transport_checksum_ok(back)
            }),
    {
        let protocol = protocol_of(sent).unwrap();
        self.lemma_outbound(sent, post, out);
        if source_of(answer) == destination_of(sent) && self.forwards_reserved() {
            self.map_for(protocol).lemma_port_restricted(
                source_of(sent),
                destination_of(sent),
                source_of(answer),
                source_of(out).port,
                post.map_for(protocol),
            );
            post.lemma_inbound_delivery(answer, source_of(sent));
        }
        self.map_for(protocol).lemma_port_restricted(
            source_of(sent),
            destination_of(sent),
            source_of(answer),
            source_of(out).port,
            post.map_for(protocol),
        );
    }
}

/// An IPv4 NAT.
#[derive(Debug)]
pub struct Ipv4Nat {
    public_ip: u32,
    subnet: Ipv4Range,
    hair_pinning: bool,
    udp_map: PortMap,
    tcp_map: PortMap,
    blacklist_unrecognized_addrs: bool,
    blacklisted_addrs: HashSet<u64>,
}

impl View for Ipv4Nat {
    type V = NatState;

    closed spec fn view(&self) -> NatState {
        NatState {
            public_ip: self.public_ip,
            subnet: self.subnet,
            hair_pinning: self.hair_pinning,
            udp_map: self.udp_map@,
            tcp_map: self.tcp_map@,
            blacklist_unrecognized_addrs: self.blacklist_unrecognized_addrs,
            blacklisted_addrs: self.blacklisted_addrs@,
        }
    }
}

/// Ages and translates an outbound packet against the port map of its
/// protocol.
fn translate_outbound(
    map: &mut PortMap,
    public_ip: u32,
    hair_pinning: bool,
    packet: Packet,
) -> (out: NatOutput)
    requires
        old(map)@.wf(),
        packet.wf(),
        ttl_of(packet@) >= 1,
    ensures
        final(map)@.wf(),
        old(map)@.forwards_reserved() ==> final(map)@.forwards_reserved(),
        ({
            let port = final(map)@.bound_port(destination_of(packet@), source_of(packet@));
            &&& old(map)@.mapped(destination_of(packet@), source_of(packet@), port, final(map)@)
            &&& out@ == outbound_result(
                with_ttl(packet@, (ttl_of(packet@) - 1) as u8),
                public_ip,
                hair_pinning,
                final(map)@,
                port,
            )
        }),
{
    let mut packet = packet;
    let ghost bytes = packet@;
    let source_addr = packet.get_source();
    let dest_addr = packet.get_destination();
    let next_ttl: u8 = packet.get_ttl() - 1;
    packet.set_ttl(next_ttl);
    let mapped: Option<u16> = map.map_port(dest_addr, source_addr);
    proof {
        old(map)@.lemma_mapped(dest_addr, source_addr, mapped, map@);
        assert(destination_of(packet@) == dest_addr);
    }
    let port: u16 = match mapped {
        Some(port) => port,
        None => {
            return NatOutput::Drop;
        },
    };
    let external_source_addr = SocketAddrV4::new(public_ip, port);
    if hair_pinning && dest_addr.ip() == public_ip {
        match map.get_inbound_addr(external_source_addr, dest_addr.port()) {
            Some(private_dest_addr) => {
                packet.set_destination(private_dest_addr);
                packet.set_checksum();
                NatOutput::ToPrivate(packet.into_bytes())
            },
            None => NatOutput::Drop,
        }
    } else {
        packet.set_source(external_source_addr);
        packet.set_checksum();
        NatOutput::ToPublic(packet.into_bytes())
    }
}

impl Ipv4Nat {
    /// A NAT between the private `subnet` and `public_ip`: without
    /// hair-pinning, forwards or blacklist, neither symmetric nor
    /// port-restricted, with sequential port allocation.
    pub fn new(public_ip: u32, subnet: Ipv4Range) -> (r: Self)
        requires
            subnet.wf(),
        ensures
            r@.wf(),
            r@.forwards_reserved(),
            r@ == (NatState {
                public_ip,
                subnet,
                hair_pinning: false,
                udp_map: PortMapState::initial(),
                tcp_map: PortMapState::initial(),
                blacklist_unrecognized_addrs: false,
                blacklisted_addrs: Set::<u64>::empty(),
            }),
    {
        let r = Ipv4Nat {
            public_ip,
            subnet,
            hair_pinning: false,
            udp_map: PortMap::new(),
            tcp_map: PortMap::new(),
            blacklist_unrecognized_addrs: false,
            blacklisted_addrs: HashSet::new(),
        };
        assert(r@ =~= (NatState {
            public_ip,
            subnet,
            hair_pinning: false,
            udp_map: PortMapState::initial(),
            tcp_map: PortMapState::initial(),
            blacklist_unrecognized_addrs: false,
            blacklisted_addrs: Set::<u64>::empty(),
        }));
        r
    }

    /// Sets the port allocator of both protocols.
    pub fn set_port_allocator(&mut self, port_allocator: PortAllocator)
        requires
            old(self)@.wf(),
            port_allocator@.wf(),
        ensures
            final(self)@.wf(),
            old(self)@.forwards_reserved() ==> final(self)@.forwards_reserved(),
            final(self)@ == (NatState {
                udp_map: PortMapState { port_allocator: port_allocator@, ..old(self)@.udp_map },
                tcp_map: PortMapState { port_allocator: port_allocator@, ..old(self)@.tcp_map },
                ..old(self)@
            }),
    {
        self.udp_map.set_port_allocator(port_allocator.duplicate());
        self.tcp_map.set_port_allocator(port_allocator);
    }

    /// Turns hair-pinning on or off.
    pub fn set_hair_pinning(&mut self, hair_pinning: bool)
        ensures
            final(self)@ == (NatState { hair_pinning, ..old(self)@ }),
    {
        self.hair_pinning = hair_pinning;
    }

    /// Forwards the external port `port` of a protocol to `local_addr`.
    pub fn forward_port(&mut self, port: u16, local_addr: SocketAddrV4, protocol: Protocol)
        requires
            old(self)@.wf(),
        ensures
            final(self)@.wf(),
            old(self)@.forwards_reserved() && old(self)@.map_for(protocol).is_unbound(port)
                ==> final(self)@.forwards_reserved(),
            final(self)@ == old(self)@.with_map(
                protocol,
                PortMapState {
                    forwards: old(self)@.map_for(protocol).forwards.insert(port, local_addr),
                    ..old(self)@.map_for(protocol)
                },
            ),
    {
        match protocol {
            Protocol::Udp => self.udp_map.forward_port(port, local_addr),
            Protocol::Tcp => self.tcp_map.forward_port(port, local_addr),
        }
    }

    /// Makes the NAT blacklist, or no longer blacklist, every remote socket
    /// that sends to a port without a mapping.
    pub fn set_blacklist_unrecognized_addrs(&mut self, blacklist_unrecognized_addrs: bool)
        ensures
            final(self)@ == (NatState { blacklist_unrecognized_addrs, ..old(self)@ }),
    {
        self.blacklist_unrecognized_addrs = blacklist_unrecognized_addrs;
    }

    /// Turns port-restricted mode on or off for both protocols.
    pub fn set_restrict_endpoints(&mut self, restrict_endpoints: bool)
        requires
            old(self)@.wf(),
        ensures
            final(self)@.wf(),
            old(self)@.forwards_reserved() ==> final(self)@.forwards_reserved(),
            final(self)@ == (NatState {
                udp_map: PortMapState {
                    allowed_endpoints: PortMapState::restriction(restrict_endpoints),
                    ..old(self)@.udp_map
                },
                tcp_map: PortMapState {
                    allowed_endpoints: PortMapState::restriction(restrict_endpoints),
                    ..old(self)@.tcp_map
                },
                ..old(self)@
            }),
    {
        self.udp_map.set_restrict_endpoints(restrict_endpoints);
        self.tcp_map.set_restrict_endpoints(restrict_endpoints);
    }

    /// Turns symmetric mode on or off for both protocols.
    pub fn set_symmetric(&mut self, symmetric: bool)
        requires
            old(self)@.wf(),
        ensures
            final(self)@.wf(),
            old(self)@.forwards_reserved() ==> final(self)@.forwards_reserved(),
            final(self)@ == (NatState {
                udp_map: PortMapState {
                    symmetric_map: PortMapState::symmetry(symmetric),
                    ..old(self)@.udp_map
                },
                tcp_map: PortMapState {
                    symmetric_map: PortMapState::symmetry(symmetric),
                    ..old(self)@.tcp_map
                },
                ..old(self)@
            }),
    {
        self.udp_map.set_symmetric(symmetric);
        self.tcp_map.set_symmetric(symmetric);
    }

    /// Handles one packet that arrived on the private side.
    pub fn process_outgoing(&mut self, bytes: Vec<u8>) -> (out: NatOutput)
        requires
            old(self)@.wf(),
        ensures
            final(self)@.wf(),
            old(self)@.forwards_reserved() ==> final(self)@.forwards_reserved(),
            old(self)@.sent_outbound(bytes@, final(self)@, out@),
    {
        let packet = match Packet::new(bytes) {
            Some(packet) => packet,
            None => {
                return NatOutput::Drop;
            },
        };
        let source_addr = packet.get_source();
        if !self.subnet.contains(source_addr.ip()) {
            return NatOutput::Drop;
        }
        if packet.get_ttl() == 0 {
            return NatOutput::Drop;
        }
        let out = match packet.protocol() {
            Protocol::Udp => translate_outbound(
                &mut self.udp_map,
                self.public_ip,
                self.hair_pinning,
                packet,
            ),
            Protocol::Tcp => translate_outbound(
                &mut self.tcp_map,
                self.public_ip,
                self.hair_pinning,
                packet,
            ),
        };
        proof {
            let protocol = protocol_of(bytes@).unwrap();
            assert(self@ =~= old(self)@.with_map(protocol, self@.map_for(protocol)));
        }
        out
    }

    /// Handles one packet that arrived on the public side.
    pub fn process_incoming(&mut self, bytes: Vec<u8>) -> (out: NatOutput)
        requires
            old(self)@.wf(),
        ensures
            final(self)@.wf(),
            old(self)@.forwards_reserved() ==> final(self)@.forwards_reserved(),
            final(self)@ == old(self)@.after_inbound(bytes@),
            out@ == old(self)@.inbound_result(bytes@),
    {
        let mut packet = match Packet::new(bytes) {
            Some(packet) => packet,
            None => {
                return NatOutput::Drop;
            },
        };
        let source_addr = packet.get_source();
        let dest_addr = packet.get_destination();
        if dest_addr.ip() != self.public_ip {
            return NatOutput::Drop;
        }
        let ttl: u8 = packet.get_ttl();
        if ttl == 0 {
            return NatOutput::Drop;
        }
        packet.set_ttl(ttl - 1);
        let source_key: u64 = source_addr.key();
        if self.blacklisted_addrs.contains(&source_key) {
            return NatOutput::Drop;
        }
        let target: Option<SocketAddrV4> = match packet.protocol() {
            Protocol::Udp => self.udp_map.get_inbound_addr(source_addr, dest_addr.port()),
            Protocol::Tcp => self.tcp_map.get_inbound_addr(source_addr, dest_addr.port()),
        };
        match target {
            Some(private_dest_addr) => {
                packet.set_destination(private_dest_addr);
                packet.set_checksum();
                NatOutput::ToPrivate(packet.into_bytes())
            },
            None => {
                if self.blacklist_unrecognized_addrs {
                    self.blacklisted_addrs.insert(source_key);
                    assert(self@ =~= old(self)@.after_inbound(bytes@));
                }
                NatOutput::Drop
            },
        }
    }
}

} // verus!
