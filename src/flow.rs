use vstd::prelude::*;

use crate::packet::{FlowKey, IpAddress, PacketFeatures};

verus! {

/// Microseconds in one second of event time.
pub const MICROS_PER_SECOND: i64 = 1_000_000;

/// What the flow table needs of one bidirectional conversation.
///
/// Each variant says, through the spec functions, what its operations do;
/// the table is verified against those statements for every variant.
pub trait Flow: Sized {
    /// The timestamp of the packet that started the flow.
    spec fn first_seen(&self) -> i64;

    /// The flow that `new` builds from these arguments.
    spec fn started(
        key: FlowKey,
        source_ip: IpAddress,
        source_port: u16,
        destination_ip: IpAddress,
        destination_port: u16,
        protocol: u8,
        timestamp_us: i64,
    ) -> Self;

    /// Whether the flow counts as expired at `now_us` under these timeouts.
    spec fn expired_at(&self, now_us: i64, active_timeout: u64, idle_timeout: u64) -> bool;

    /// The flow after folding in `packet`.
    spec fn updated(&self, packet: PacketFeatures, is_forward: bool) -> Self;

    /// Whether folding in `packet` ends the conversation.
    spec fn ended_by(&self, packet: PacketFeatures, is_forward: bool) -> bool;

    /// Starts a flow from its first packet.
    fn new(
        key: FlowKey,
        source_ip: IpAddress,
        source_port: u16,
        destination_ip: IpAddress,
        destination_port: u16,
        protocol: u8,
        timestamp_us: i64,
    ) -> (r: Self)
        ensures
            r == Self::started(
                key,
                source_ip,
                source_port,
                destination_ip,
                destination_port,
                protocol,
                timestamp_us,
            ),
            r.first_seen() == timestamp_us,
    ;

    /// Folds one packet into the flow; true when the flow has ended.
    fn update_flow(&mut self, packet: &PacketFeatures, is_forward: bool) -> (r: bool)
        ensures
            *final(self) == old(self).updated(*packet, is_forward),
            r == old(self).ended_by(*packet, is_forward),
            final(self).first_seen() == old(self).first_seen(),
    ;

    /// Whether the flow is expired at `now_us`.
    fn is_expired(&self, now_us: i64, active_timeout: u64, idle_timeout: u64) -> (r: bool)
        ensures
            r == self.expired_at(now_us, active_timeout, idle_timeout),
    ;

    /// The timestamp of the first packet.
    fn get_first_timestamp(&self) -> (r: i64)
        ensures
            r == self.first_seen(),
    ;

    /// A copy of the flow as it stands.
    fn snapshot(&self) -> (r: Self)
        ensures
            r == *self,
    ;
}

/// TCP's FIN flag bit in a packet's combined flags.
pub const FIN_FLAG: u8 = 0x01;

/// TCP's RST flag bit in a packet's combined flags.
pub const RST_FLAG: u8 = 0x04;

/// IANA protocol number of TCP.
pub const PROTOCOL_TCP: u8 = 6;

/// A flow that counts packets in each direction.
///
/// It expires when it has lasted longer than the active timeout or has been
/// silent longer than the idle timeout, and a TCP packet with FIN or RST ends
/// it.
#[derive(Clone, Copy, Debug, PartialEq, Eq, Structural)]
pub struct BasicFlow {
    pub key: FlowKey,
    pub source_ip: IpAddress,
    pub source_port: u16,
    pub destination_ip: IpAddress,
    pub destination_port: u16,
    pub protocol: u8,
    pub first_timestamp_us: i64,
    pub last_timestamp_us: i64,
    pub fwd_packets: u64,
    pub bwd_packets: u64,
}

/// Whether more than `limit_s` seconds lie between `from_us` and `to_us`.
pub open spec fn longer_than(from_us: i64, to_us: i64, limit_s: u64) -> bool {
    to_us - from_us > limit_s * MICROS_PER_SECOND
}

/// Whether a packet closes a TCP connection.
pub open spec fn closes_connection(packet: PacketFeatures) -> bool {
    packet.protocol == PROTOCOL_TCP && packet.flags & (FIN_FLAG | RST_FLAG) != 0
}

/// One more, staying at the largest value.
pub open spec fn count_up(n: u64) -> u64 {
    if n < u64::MAX {
        (n + 1) as u64
    } else {
        n
    }
}

fn exceeds(from_us: i64, to_us: i64, limit_s: u64) -> (r: bool)
    ensures
        r == longer_than(from_us, to_us, limit_s),
{
    let span: i128 = to_us as i128 - from_us as i128;
    let limit: i128 = limit_s as i128;
    assert(limit * 1_000_000 <= u64::MAX * 1_000_000) by (nonlinear_arith)
        requires
            0 <= limit <= u64::MAX,
    ;
    span > limit * MICROS_PER_SECOND as i128
}

fn saturating_increment(n: u64) -> (r: u64)
    ensures
        r == count_up(n),
{
    if n < u64::MAX {
        n + 1
    } else {
        n
    }
}

impl Flow for BasicFlow {
    open spec fn first_seen(&self) -> i64 {
        self.first_timestamp_us
    }

    open spec fn started(
        key: FlowKey,
        source_ip: IpAddress,
        source_port: u16,
        destination_ip: IpAddress,
        destination_port: u16,
        protocol: u8,
        timestamp_us: i64,
    ) -> Self {
        BasicFlow {
            key,
            source_ip,
            source_port,
            destination_ip,
            destination_port,
            protocol,
            first_timestamp_us: timestamp_us,
            last_timestamp_us: timestamp_us,
            fwd_packets: 1,
            bwd_packets: 0,
        }
    }

    open spec fn expired_at(&self, now_us: i64, active_timeout: u64, idle_timeout: u64) -> bool {
        longer_than(self.first_timestamp_us, now_us, active_timeout) || longer_than(
            self.last_timestamp_us,
            now_us,
            idle_timeout,
        )
    }

    open spec fn updated(&self, packet: PacketFeatures, is_forward: bool) -> Self {
        if is_forward {
            BasicFlow {
                last_timestamp_us: packet.timestamp_us,
                fwd_packets: count_up(self.fwd_packets),
                ..*self
            }
        } else {
            BasicFlow {
                last_timestamp_us: packet.timestamp_us,
                bwd_packets: count_up(self.bwd_packets),
                ..*self
            }
        }
    }

    open spec fn ended_by(&self, packet: PacketFeatures, is_forward: bool) -> bool {
        closes_connection(packet)
    }

    fn new(
        key: FlowKey,
        source_ip: IpAddress,
        source_port: u16,
        destination_ip: IpAddress,
        destination_port: u16,
        protocol: u8,
        timestamp_us: i64,
    ) -> (r: Self) {
        BasicFlow {
            key,
            source_ip,
            source_port,
            destination_ip,
            destination_port,
            protocol,
            first_timestamp_us: timestamp_us,
            last_timestamp_us: timestamp_us,
            fwd_packets: 1,
            bwd_packets: 0,
        }
    }

    fn update_flow(&mut self, packet: &PacketFeatures, is_forward: bool) -> (r: bool) {
        self.last_timestamp_us = packet.timestamp_us;
        if is_forward {
            self.fwd_packets = saturating_increment(self.fwd_packets);
        } else {
            self.bwd_packets = saturating_increment(self.bwd_packets);
        }
        packet.protocol == PROTOCOL_TCP && packet.flags & (FIN_FLAG | RST_FLAG) != 0
    }

    fn is_expired(&self, now_us: i64, active_timeout: u64, idle_timeout: u64) -> (r: bool) {
        exceeds(self.first_timestamp_us, now_us, active_timeout) || exceeds(
            self.last_timestamp_us,
            now_us,
            idle_timeout,
        )
    }

    fn get_first_timestamp(&self) -> (r: i64) {
        self.first_timestamp_us
    }

    fn snapshot(&self) -> (r: Self) {
        *self
    }
}

} // verus!
