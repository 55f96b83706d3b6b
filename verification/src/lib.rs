//! The logic of a QUIC performance baseline: a listener that serves a tiny
//! request protocol and a dialer that measures upload throughput, download
//! throughput and latency against it.

pub mod awaited;
pub mod campaign;
pub mod client;
pub mod client_handler;
pub mod client_test;
pub mod config;
pub mod credentials;
pub mod decimal;
pub mod exact;
pub mod listener;
pub mod mirror;
pub mod multiaddr;
pub mod payload;
pub mod perf_client_app;
pub mod perf_server_app;
pub mod perf_socket;
pub mod rendezvous;
pub mod report;
pub mod report_lines;
pub mod rounded;
pub mod server_handler;
pub mod server_stream;
pub mod settings;
pub mod stats;
pub mod stream_table;
pub mod text;
pub mod wire;
