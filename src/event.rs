use vstd::prelude::*;

verus! {

/// Per-packet fields of an IPv4 packet, in the order the capture program
/// writes them.
#[derive(Copy, Clone, Debug, Hash, Eq, PartialEq)]
pub struct EbpfEventIpv4 {
    pub ipv4_destination: u32,
    pub ipv4_source: u32,
    pub port_destination: u16,
    pub port_source: u16,
    pub data_length: u16,
    pub length: u16,
    pub window_size: u16,
    pub combined_flags: u8,
    pub protocol: u8,
    pub header_length: u8,
    pub sequence_number: u32,
    /// Trailing bytes that keep the record the size of the producer's one.
    pub _padding: [u8; 3],
}

impl EbpfEventIpv4 {
    /// Builds a record from every field, with zeroed padding.
    pub fn new(
        ipv4_destination: u32,
        ipv4_source: u32,
        port_destination: u16,
        port_source: u16,
        data_length: u16,
        length: u16,
        window_size: u16,
        combined_flags: u8,
        protocol: u8,
        header_length: u8,
        sequence_number: u32,
    ) -> (r: Self)
        ensures
            r.ipv4_destination == ipv4_destination,
            r.ipv4_source == ipv4_source,
            r.port_destination == port_destination,
            r.port_source == port_source,
            r.data_length == data_length,
            r.length == length,
            r.window_size == window_size,
            r.combined_flags == combined_flags,
            r.protocol == protocol,
            r.header_length == header_length,
            r.sequence_number == sequence_number,
            r._padding@ == seq![0u8, 0u8, 0u8],
    {
        let r = EbpfEventIpv4 {
            ipv4_destination,
            ipv4_source,
            port_destination,
            port_source,
            data_length,
            length,
            window_size,
            combined_flags,
            protocol,
            header_length,
            sequence_number,
            _padding: [0u8; 3],
        };
        assert(r._padding@ =~= seq![0u8, 0u8, 0u8]);
        r
    }
}

/// Per-packet fields of an IPv6 packet, in the order the capture program
/// writes them.
#[derive(Clone, Copy)]
pub struct EbpfEventIpv6 {
    pub ipv6_destination: u128,
    pub ipv6_source: u128,
    pub port_destination: u16,
    pub port_source: u16,
    pub data_length: u16,
    pub length: u16,
    pub window_size: u16,
    pub combined_flags: u8,
    pub protocol: u8,
    pub header_length: u8,
    pub sequence_number: u32,
    /// Trailing bytes that keep the record the size of the producer's one.
    pub _padding: [u8; 15],
}

impl EbpfEventIpv6 {
    /// Builds a record from every field, with zeroed padding.
    pub fn new(
        ipv6_destination: u128,
        ipv6_source: u128,
        port_destination: u16,
        port_source: u16,
        data_length: u16,
        length: u16,
        window_size: u16,
        combined_flags: u8,
        protocol: u8,
        header_length: u8,
        sequence_number: u32,
    ) -> (r: Self)
        ensures
            r.ipv6_destination == ipv6_destination,
            r.ipv6_source == ipv6_source,
            r.port_destination == port_destination,
            r.port_source == port_source,
            r.data_length == data_length,
            r.length == length,
            r.window_size == window_size,
            r.combined_flags == combined_flags,
            r.protocol == protocol,
            r.header_length == header_length,
            r.sequence_number == sequence_number,
            r._padding@ == Seq::new(15, |i: int| 0u8),
    {
        let r = EbpfEventIpv6 {
            ipv6_destination,
            ipv6_source,
            port_destination,
            port_source,
            data_length,
            length,
            window_size,
            combined_flags,
            protocol,
            header_length,
            sequence_number,
            _padding: [0u8; 15],
        };
        assert(r._padding@ =~= Seq::new(15, |i: int| 0u8));
        r
    }
}

} // verus!
