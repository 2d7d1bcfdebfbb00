//! The settings of a session.
use vstd::prelude::*;

use crate::time::Duration;

verus! {

/// The settings of a session.
#[derive(Clone, Copy, Debug, PartialEq, Eq, Structural)]
pub struct Config {
    /// Whether the session sends pings of its own accord.
    pub enable_keepalive: bool,
    /// The time between two such pings.
    pub keepalive_interval: Duration,
    /// The number of bytes that a stream may receive without giving new credit.
    pub max_stream_window_size: u32,
}

impl Config {
    /// A session that sends pings needs some time between them.
    pub open spec fn valid(self) -> bool {
        self.enable_keepalive ==> self.keepalive_interval.nanos > 0
    }

    /// The settings that hold unless others are given.
    pub open spec fn standard() -> Config {
        Config {
            enable_keepalive: true,
            keepalive_interval: Duration { nanos: 30_000_000_000 },
            max_stream_window_size: 262_144,
        }
    }
}

/// Settings are valid unless they ask for pings with no time between them.
pub proof fn only_empty_intervals_are_invalid(config: Config)
    ensures
        !config.valid() <==> config.enable_keepalive && config.keepalive_interval.nanos == 0,
{
}

impl Default for Config {
    /// Pings every thirty seconds, and windows of 256 KiB.
    fn default() -> (config: Config)
        ensures
            config == Config::standard(),
            config.enable_keepalive,
            config.keepalive_interval.nanos == 30_000_000_000,
            config.max_stream_window_size == 262_144,
    {
        Config {
            enable_keepalive: true,
            keepalive_interval: Duration { nanos: 30_000_000_000 },
            max_stream_window_size: 262_144,
        }
    }
}

} // verus!
