//! Aggregation of kernel-captured packet events into bidirectional flows.
//!
//! `event` holds the fixed records produced at the capture boundary,
//! `packet` the normalized per-packet view and its flow keys, `flow` the
//! capability contract of a flow, and `flow_table` the engine that keys,
//! updates, expires and hands out flows for export.
pub mod event;
pub mod flow;
pub mod flow_table;
pub mod packet;
