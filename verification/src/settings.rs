//! How connections are set up.

use vstd::prelude::*;

verus! {

/// The name of the protocol, as both sides of a handshake give it.
pub const ALPN: &'static str = "perf";

/// The name that a dialer expects in a certificate.
pub const SERVER_NAME: &'static str = "localhost";

/// The limits of a connection.
#[derive(Clone, Copy, Debug, PartialEq, Eq, Structural)]
pub struct TransportSettings {
    pub max_idle_timeout_ms: u64,
    pub max_udp_payload: usize,
    pub initial_max_data: u64,
    pub initial_max_stream_data: u64,
    pub initial_max_streams: u64,
    pub disable_active_migration: bool,
    /// Whether the other side's certificate is to be checked; a dialer must say, and
    /// says no.
    pub verify_peer: Option<bool>,
}

/// The limits that both sides set.
pub open spec fn common_settings(verify_peer: Option<bool>) -> TransportSettings {
    TransportSettings {
        max_idle_timeout_ms: 30_000,
        max_udp_payload: 65535,
        initial_max_data: 10_000_000_000,
        initial_max_stream_data: 10_000_000_000,
        initial_max_streams: 1000,
        disable_active_migration: true,
        verify_peer,
    }
}

fn settings(verify_peer: Option<bool>) -> (r: TransportSettings)
    ensures
        r == common_settings(verify_peer),
{
    TransportSettings {
        max_idle_timeout_ms: 30_000,
        max_udp_payload: 65535,
        initial_max_data: 10_000_000_000,
        initial_max_stream_data: 10_000_000_000,
        initial_max_streams: 1000,
        disable_active_migration: true,
        verify_peer,
    }
}

/// How a listener sets up its connections.
pub fn make_server_config() -> (r: TransportSettings)
    ensures
        r == common_settings(None),
{
    settings(None)
}

/// How a dialer sets up its connections.
pub fn make_client_config() -> (r: TransportSettings)
    ensures
        r == common_settings(Some(false)),
{
    settings(Some(false))
}

} // verus!
