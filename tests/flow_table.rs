use rustiflow::flow::{BasicFlow, Flow};
use rustiflow::flow_table::FlowTable;
use rustiflow::packet::{IpAddress, PacketFeatures};

const T0: i64 = 1_700_000_000_000_000;
const SECOND: i64 = 1_000_000;

fn packet_at(ts: i64, src: u32, sport: u16, dst: u32, dport: u16, protocol: u8, flags: u8) -> PacketFeatures {
    PacketFeatures {
        timestamp_us: ts,
        source_ip: IpAddress::V4(src),
        source_port: sport,
        destination_ip: IpAddress::V4(dst),
        destination_port: dport,
        protocol,
        flags,
        data_length: 0,
        length: 60,
    }
}

fn a_to_b(ts: i64) -> PacketFeatures {
    packet_at(ts, 1, 40000, 2, 80, 17, 0)
}

fn b_to_a(ts: i64) -> PacketFeatures {
    packet_at(ts, 2, 80, 1, 40000, 17, 0)
}

#[test]
fn new_table_is_empty() {
    let table: FlowTable<BasicFlow> = FlowTable::new(120, 60, Some(30));
    assert_eq!(table.len(), 0);
    assert_eq!(table.active_timeout(), 120);
    assert_eq!(table.idle_timeout(), 60);
    assert_eq!(table.early_export(), Some(30));
    assert_eq!(table.next_check_time(), None);
}

#[test]
fn reply_updates_the_flow_backward() {
    let mut table: FlowTable<BasicFlow> = FlowTable::new(120, 60, None);
    let first = a_to_b(T0);
    assert!(table.process_packet(&first).is_empty());
    assert!(table.process_packet(&b_to_a(T0 + SECOND)).is_empty());
    assert_eq!(table.len(), 1);
    assert!(table.contains_key(&first.flow_key()));
    assert!(!table.contains_key(&first.flow_key_bwd()));
    let flow = table.get(&first.flow_key()).unwrap();
    assert_eq!(flow.fwd_packets, 1);
    assert_eq!(flow.bwd_packets, 1);
    assert_eq!(flow.first_timestamp_us, T0);
    assert_eq!(flow.last_timestamp_us, T0 + SECOND);
}

#[test]
fn forward_and_backward_keys_never_both_filed() {
    let mut table: FlowTable<BasicFlow> = FlowTable::new(120, 5, None);
    let p = a_to_b(T0);
    table.process_packet(&p);
    table.process_packet(&b_to_a(T0 + SECOND));
    // idle for longer than the idle timeout: the reply opens a new flow
    let exports = table.process_packet(&b_to_a(T0 + 20 * SECOND));
    assert_eq!(exports.len(), 1);
    assert_eq!(table.len(), 1);
    assert!(table.contains_key(&p.flow_key_bwd()));
    assert!(!table.contains_key(&p.flow_key()));
}

#[test]
fn idle_flow_is_replaced_on_lookup() {
    let mut table: FlowTable<BasicFlow> = FlowTable::new(3600, 30, None);
    table.process_packet(&a_to_b(T0));
    table.process_packet(&a_to_b(T0 + SECOND));
    let exports = table.process_packet(&a_to_b(T0 + 45 * SECOND));
    assert_eq!(exports.len(), 1);
    assert_eq!(exports[0].first_timestamp_us, T0);
    assert_eq!(exports[0].fwd_packets, 2);
    assert_eq!(table.len(), 1);
    let flow = table.get(&a_to_b(T0).flow_key()).unwrap();
    assert_eq!(flow.first_timestamp_us, T0 + 45 * SECOND);
    assert_eq!(flow.fwd_packets, 1);
}

#[test]
fn idle_flow_is_swept_before_lookup() {
    let mut table: FlowTable<BasicFlow> = FlowTable::new(3600, 60, None);
    table.process_packet(&a_to_b(T0));
    let exports = table.process_packet(&a_to_b(T0 + 61 * SECOND));
    assert_eq!(exports.len(), 1);
    assert_eq!(exports[0].first_timestamp_us, T0);
    assert_eq!(table.len(), 1);
    assert_eq!(table.get(&a_to_b(T0).flow_key()).unwrap().first_timestamp_us, T0 + 61 * SECOND);
    assert_eq!(table.next_check_time(), Some(T0 + 121 * SECOND));
}

#[test]
fn early_export_hands_out_a_copy() {
    let mut table: FlowTable<BasicFlow> = FlowTable::new(120, 60, Some(30));
    assert!(table.process_packet(&a_to_b(T0)).is_empty());
    assert!(table.process_packet(&a_to_b(T0 + 10 * SECOND)).is_empty());
    let exports = table.process_packet(&a_to_b(T0 + 35 * SECOND));
    assert_eq!(exports.len(), 1);
    assert_eq!(exports[0].fwd_packets, 3);
    assert_eq!(exports[0].first_timestamp_us, T0);
    assert_eq!(table.len(), 1);
    let live = table.get(&a_to_b(T0).flow_key()).unwrap();
    assert_eq!(*live, exports[0]);
}

#[test]
fn early_export_waits_for_whole_seconds_past_threshold() {
    let mut table: FlowTable<BasicFlow> = FlowTable::new(120, 60, Some(30));
    table.process_packet(&a_to_b(T0));
    // 30.9 seconds is 30 whole seconds, which does not exceed the threshold
    assert!(table.process_packet(&a_to_b(T0 + 30 * SECOND + 900_000)).is_empty());
    assert_eq!(table.process_packet(&a_to_b(T0 + 31 * SECOND)).len(), 1);
}

#[test]
fn no_early_export_without_threshold() {
    let mut table: FlowTable<BasicFlow> = FlowTable::new(120, 60, None);
    table.process_packet(&a_to_b(T0));
    assert!(table.process_packet(&a_to_b(T0 + 50 * SECOND)).is_empty());
}

#[test]
fn terminated_flow_is_exported_and_removed() {
    let mut table: FlowTable<BasicFlow> = FlowTable::new(120, 60, None);
    let syn = packet_at(T0, 1, 40000, 2, 443, 6, 0x02);
    let fin = packet_at(T0 + SECOND, 2, 443, 1, 40000, 6, 0x11);
    assert!(table.process_packet(&syn).is_empty());
    let exports = table.process_packet(&fin);
    assert_eq!(exports.len(), 1);
    assert_eq!(exports[0].fwd_packets, 1);
    assert_eq!(exports[0].bwd_packets, 1);
    assert_eq!(table.len(), 0);
    assert!(!table.contains_key(&syn.flow_key()));
}

#[test]
fn reset_ends_a_tcp_flow() {
    let mut table: FlowTable<BasicFlow> = FlowTable::new(120, 60, None);
    table.process_packet(&packet_at(T0, 1, 40000, 2, 443, 6, 0x02));
    let exports = table.process_packet(&packet_at(T0 + SECOND, 1, 40000, 2, 443, 6, 0x04));
    assert_eq!(exports.len(), 1);
    assert_eq!(table.len(), 0);
}

#[test]
fn shutdown_exports_in_first_seen_order() {
    let mut table: FlowTable<BasicFlow> = FlowTable::new(3600, 3600, None);
    let t1 = T0;
    let t2 = T0 + 5 * SECOND;
    let t3 = T0 + 9 * SECOND;
    table.process_packet(&packet_at(t3, 3, 3000, 9, 80, 17, 0));
    table.process_packet(&packet_at(t1, 1, 1000, 9, 80, 17, 0));
    table.process_packet(&packet_at(t2, 2, 2000, 9, 80, 17, 0));
    assert_eq!(table.len(), 3);
    let flows = table.export_all_flows();
    assert_eq!(flows.len(), 3);
    assert_eq!(flows[0].first_timestamp_us, t1);
    assert_eq!(flows[1].first_timestamp_us, t2);
    assert_eq!(flows[2].first_timestamp_us, t3);
    assert_eq!(table.len(), 0);
}

#[test]
fn shutdown_of_empty_table_exports_nothing() {
    let mut table: FlowTable<BasicFlow> = FlowTable::new(10, 10, None);
    assert!(table.export_all_flows().is_empty());
}

#[test]
fn sweep_runs_once_per_interval() {
    let mut table: FlowTable<BasicFlow> = FlowTable::new(3600, 3600, None);
    table.process_packet(&a_to_b(T0));
    assert_eq!(table.next_check_time(), Some(T0 + 60 * SECOND));
    for i in 1..6 {
        table.process_packet(&a_to_b(T0 + i * 10 * SECOND));
        assert_eq!(table.next_check_time(), Some(T0 + 60 * SECOND));
    }
    table.process_packet(&a_to_b(T0 + 60 * SECOND));
    assert_eq!(table.next_check_time(), Some(T0 + 120 * SECOND));
    table.process_packet(&a_to_b(T0 + 119 * SECOND));
    assert_eq!(table.next_check_time(), Some(T0 + 120 * SECOND));
}

#[test]
fn sweep_schedule_stops_at_largest_timestamp() {
    let mut table: FlowTable<BasicFlow> = FlowTable::new(10, 10, None);
    table.process_packet(&a_to_b(i64::MAX - SECOND));
    assert_eq!(table.next_check_time(), Some(i64::MAX));
}

#[test]
fn sweep_removes_only_expired_flows() {
    let mut table: FlowTable<BasicFlow> = FlowTable::new(3600, 30, None);
    table.process_packet(&packet_at(T0, 1, 1000, 9, 80, 17, 0));
    table.process_packet(&packet_at(T0 + 20 * SECOND, 2, 2000, 9, 80, 17, 0));
    let swept = table.export_expired_flows(T0 + 40 * SECOND);
    assert_eq!(swept.len(), 1);
    assert_eq!(swept[0].source_port, 1000);
    assert_eq!(table.len(), 1);
    assert!(table.contains_key(&packet_at(0, 2, 2000, 9, 80, 17, 0).flow_key()));
}

#[test]
fn active_timeout_expires_busy_flow() {
    let flow = BasicFlow::new(a_to_b(T0).flow_key(), IpAddress::V4(1), 40000, IpAddress::V4(2), 80, 17, T0);
    assert!(!flow.is_expired(T0 + 10 * SECOND, 10, 60));
    assert!(flow.is_expired(T0 + 10 * SECOND + 1, 10, 60));
    assert!(flow.is_expired(T0 + 61 * SECOND, 3600, 60));
    assert_eq!(flow.get_first_timestamp(), T0);
}
