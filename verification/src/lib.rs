//! Classification of captured network frames and aggregation of
//! per-protocol traffic statistics.
//!
//! The crate has two parts, used in sequence: `packet_types` classifies one
//! raw link-layer frame at a time into a `PacketTypes` record (link, network
//! and transport kind, addresses, ports, TCP flags), and `aggregate` reduces
//! a finished collection of records to per-category counts, size extrema and
//! averages, together with unique-address, unique-port and flag tallies.
//! Reading a capture file and printing the report are left to callers.

pub mod aggregate;
pub mod packet_types;
