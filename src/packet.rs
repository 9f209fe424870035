use vstd::prelude::*;

use crate::event::{EbpfEventIpv4, EbpfEventIpv6};

verus! {

/// An IP address of either family, as the integer carried on the wire.
#[derive(Clone, Copy, Debug, PartialEq, Eq, Structural, Hash)]
pub enum IpAddress {
    V4(u32),
    V6(u128),
}

/// The endpoints and protocol that identify one direction of a conversation.
#[derive(Clone, Copy, Debug, PartialEq, Eq, Structural, Hash)]
pub struct FlowKey {
    pub source_ip: IpAddress,
    pub source_port: u16,
    pub destination_ip: IpAddress,
    pub destination_port: u16,
    pub protocol: u8,
}

impl FlowKey {
    /// The same conversation seen from the other end.
    pub open spec fn reverse(self) -> FlowKey {
        FlowKey {
            source_ip: self.destination_ip,
            source_port: self.destination_port,
            destination_ip: self.source_ip,
            destination_port: self.source_port,
            protocol: self.protocol,
        }
    }
}

/// The normalized view of one captured packet.
///
/// Timestamps are event time in microseconds since the Unix epoch.
#[derive(Clone, Copy, Debug, PartialEq, Eq, Structural)]
pub struct PacketFeatures {
    pub timestamp_us: i64,
    pub source_ip: IpAddress,
    pub source_port: u16,
    pub destination_ip: IpAddress,
    pub destination_port: u16,
    pub protocol: u8,
    pub flags: u8,
    pub data_length: u16,
    pub length: u16,
}

impl PacketFeatures {
    /// The key of the packet's own direction: source to destination.
    pub open spec fn key(self) -> FlowKey {
        FlowKey {
            source_ip: self.source_ip,
            source_port: self.source_port,
            destination_ip: self.destination_ip,
            destination_port: self.destination_port,
            protocol: self.protocol,
        }
    }

    /// The key of the opposite direction: destination to source.
    pub open spec fn key_bwd(self) -> FlowKey {
        FlowKey {
            source_ip: self.destination_ip,
            source_port: self.destination_port,
            destination_ip: self.source_ip,
            destination_port: self.source_port,
            protocol: self.protocol,
        }
    }

    /// The same packet with source and destination exchanged.
    pub open spec fn swapped(self) -> PacketFeatures {
        PacketFeatures {
            source_ip: self.destination_ip,
            source_port: self.destination_port,
            destination_ip: self.source_ip,
            destination_port: self.source_port,
            ..self
        }
    }

    /// The key of the packet's own direction.
    pub fn flow_key(&self) -> (r: FlowKey)
        ensures
            r == self.key(),
    {
        FlowKey {
            source_ip: self.source_ip,
            source_port: self.source_port,
            destination_ip: self.destination_ip,
            destination_port: self.destination_port,
            protocol: self.protocol,
        }
    }

    /// The key of the opposite direction.
    pub fn flow_key_bwd(&self) -> (r: FlowKey)
        ensures
            r == self.key_bwd(),
    {
        FlowKey {
            source_ip: self.destination_ip,
            source_port: self.destination_port,
            destination_ip: self.source_ip,
            destination_port: self.source_port,
            protocol: self.protocol,
        }
    }

    /// Normalizes an IPv4 capture record observed at `timestamp_us`.
    pub fn from_ipv4(event: &EbpfEventIpv4, timestamp_us: i64) -> (r: PacketFeatures)
        ensures
            r.timestamp_us == timestamp_us,
            r.source_ip == IpAddress::V4(event.ipv4_source),
            r.source_port == event.port_source,
            r.destination_ip == IpAddress::V4(event.ipv4_destination),
            r.destination_port == event.port_destination,
            r.protocol == event.protocol,
            r.flags == event.combined_flags,
            r.data_length == event.data_length,
            r.length == event.length,
    {
        PacketFeatures {
            timestamp_us,
            source_ip: IpAddress::V4(event.ipv4_source),
            source_port: event.port_source,
            destination_ip: IpAddress::V4(event.ipv4_destination),
            destination_port: event.port_destination,
            protocol: event.protocol,
            flags: event.combined_flags,
            data_length: event.data_length,
            length: event.length,
        }
    }

    /// Normalizes an IPv6 capture record observed at `timestamp_us`.
    pub fn from_ipv6(event: &EbpfEventIpv6, timestamp_us: i64) -> (r: PacketFeatures)
        ensures
            r.timestamp_us == timestamp_us,
            r.source_ip == IpAddress::V6(event.ipv6_source),
            r.source_port == event.port_source,
            r.destination_ip == IpAddress::V6(event.ipv6_destination),
            r.destination_port == event.port_destination,
            r.protocol == event.protocol,
            r.flags == event.combined_flags,
            r.data_length == event.data_length,
            r.length == event.length,
    {
        PacketFeatures {
            timestamp_us,
            source_ip: IpAddress::V6(event.ipv6_source),
            source_port: event.port_source,
            destination_ip: IpAddress::V6(event.ipv6_destination),
            destination_port: event.port_destination,
            protocol: event.protocol,
            flags: event.combined_flags,
            data_length: event.data_length,
            length: event.length,
        }
    }
}

/// Exchanging a packet's endpoints exchanges its two keys: the backward key
/// of the swapped packet is the forward key of the unswapped one, and the other
/// way round. Either key is the reverse of the other.
pub proof fn lemma_key_symmetry(p: PacketFeatures)
    ensures
        p.swapped().key_bwd() == p.key(),
        p.swapped().key() == p.key_bwd(),
        p.key_bwd() == p.key().reverse(),
        p.key().reverse().reverse() == p.key(),
{
}

} // verus!
