use rustiflow::event::{EbpfEventIpv4, EbpfEventIpv6};
use rustiflow::packet::{IpAddress, PacketFeatures};

#[test]
fn ipv4_record_keeps_fields_and_zeroes_padding() {
    let e = EbpfEventIpv4::new(0x0a000002, 0x0a000001, 80, 40000, 100, 140, 512, 0x12, 6, 20, 7);
    assert_eq!(e.ipv4_destination, 0x0a000002);
    assert_eq!(e.ipv4_source, 0x0a000001);
    assert_eq!(e.port_destination, 80);
    assert_eq!(e.port_source, 40000);
    assert_eq!(e.data_length, 100);
    assert_eq!(e.length, 140);
    assert_eq!(e.window_size, 512);
    assert_eq!(e.combined_flags, 0x12);
    assert_eq!(e.protocol, 6);
    assert_eq!(e.header_length, 20);
    assert_eq!(e.sequence_number, 7);
    assert_eq!(e._padding, [0u8; 3]);
}

#[test]
fn ipv6_record_keeps_fields_and_zeroes_padding() {
    let e = EbpfEventIpv6::new(2, 1, 443, 50000, 10, 70, 1024, 0x10, 17, 40, 99);
    assert_eq!(e.ipv6_destination, 2);
    assert_eq!(e.ipv6_source, 1);
    assert_eq!(e.port_destination, 443);
    assert_eq!(e.port_source, 50000);
    assert_eq!(e.data_length, 10);
    assert_eq!(e.length, 70);
    assert_eq!(e.window_size, 1024);
    assert_eq!(e.combined_flags, 0x10);
    assert_eq!(e.protocol, 17);
    assert_eq!(e.header_length, 40);
    assert_eq!(e.sequence_number, 99);
    assert_eq!(e._padding, [0u8; 15]);
}

#[test]
fn packet_features_from_ipv4_record() {
    let e = EbpfEventIpv4::new(0x0a000002, 0x0a000001, 80, 40000, 100, 140, 512, 0x01, 6, 20, 7);
    let p = PacketFeatures::from_ipv4(&e, 5_000_000);
    assert_eq!(p.timestamp_us, 5_000_000);
    assert_eq!(p.source_ip, IpAddress::V4(0x0a000001));
    assert_eq!(p.destination_ip, IpAddress::V4(0x0a000002));
    assert_eq!(p.source_port, 40000);
    assert_eq!(p.destination_port, 80);
    assert_eq!(p.protocol, 6);
    assert_eq!(p.flags, 0x01);
    assert_eq!(p.data_length, 100);
    assert_eq!(p.length, 140);
}

#[test]
fn packet_features_from_ipv6_record() {
    let e = EbpfEventIpv6::new(2, 1, 443, 50000, 10, 70, 1024, 0x10, 17, 40, 99);
    let p = PacketFeatures::from_ipv6(&e, -3);
    assert_eq!(p.timestamp_us, -3);
    assert_eq!(p.source_ip, IpAddress::V6(1));
    assert_eq!(p.destination_ip, IpAddress::V6(2));
    assert_eq!(p.source_port, 50000);
    assert_eq!(p.destination_port, 443);
    assert_eq!(p.protocol, 17);
}
