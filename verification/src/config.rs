//! Connection settings of the channel-based device API.

use std::time::Duration;

use vstd::prelude::*;

verus! {

/// The duration that `Duration::from_millis` makes of a number of milliseconds.
pub uninterp spec fn duration_millis(ms: u64) -> Duration;

/// Calls `Duration::from_millis`. Claims only that the result is a function
/// of the number of milliseconds.
#[verifier::external_body]
fn millis(ms: u64) -> (d: Duration)
    ensures
        d == duration_millis(ms),
{
    Duration::from_millis(ms)
}

/// `Duration` is `Copy`: its `clone` returns the same duration.
pub assume_specification[ <std::time::Duration as std::clone::Clone>::clone ](d: &Duration) -> (r:
    Duration)
    ensures
        r == *d,
;

/// Configuration for connecting to a MAKCU device.
#[derive(Debug, Clone)]
pub struct DeviceConfig {
    /// Serial port path. `None` = auto-detect by VID/PID.
    pub port: Option<String>,
    /// Try 4 Mbaud first before the baud-change sequence.
    pub try_4m_first: bool,
    /// Timeout for each command response.
    pub command_timeout: Duration,
    /// Enable automatic reconnection on disconnect.
    pub reconnect: bool,
    /// Initial reconnection backoff delay.
    pub reconnect_backoff: Duration,
    /// When true, all commands are fire-and-forget by default.
    pub fire_and_forget: bool,
}

impl Default for DeviceConfig {
    fn default() -> (c: Self)
        ensures
            c.port is None,
            c.try_4m_first,
            c.command_timeout == duration_millis(500),
            c.reconnect,
            c.reconnect_backoff == duration_millis(100),
            !c.fire_and_forget,
    {
        Self {
            port: None,
            try_4m_first: true,
            command_timeout: millis(500),
            reconnect: true,
            reconnect_backoff: millis(100),
            fire_and_forget: false,
        }
    }
}

} // verus!
