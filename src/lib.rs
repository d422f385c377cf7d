//! Packet-capture analysis core: layer decoding with tunnel unwrapping,
//! flow tracking, IP defragmentation, TCP stream reassembly, flow-affine
//! distribution over workers and plugin dispatch, each with a contract
//! proved by Verus.
pub mod analyzer;
pub mod capture_info;
pub mod config;
pub mod defrag;
pub mod dispatch_filter;
pub mod examples;
pub mod five_tuple;
pub mod flow_table;
pub mod geneve;
pub mod layers;
pub mod pcapng;
pub mod plugin;
pub mod sharding;
pub mod tcp_reassembly;
