//! Configuration data: tracked devices, signal thresholds, and timing
//! parameters. All values are immutable after load; loading itself is I/O
//! and lives outside the library.

use vstd::prelude::*;

verus! {

/// One tracked device: its hardware address, a display name, and the two
/// per-device policy flags.
pub struct DeviceConfig {
    /// Opaque hardware address, as the probe tool expects it.
    pub mac_address: String,
    /// Human-readable name, used only for diagnostics outside the library.
    pub name: String,
    /// Disabled devices are skipped entirely: they are never probed and
    /// never contribute to any per-cycle aggregate.
    pub enabled: bool,
    /// Whether a device that stopped answering should be queued for a
    /// debounced reconnect attempt.
    pub auto_connect: bool,
}

/// Global signal-strength thresholds, in the probe's units (dBm).
pub struct Thresholds {
    /// A connected device reading below this level counts as "weak".
    pub lock_threshold: i16,
    /// A reading strictly above this level counts as "in range" for
    /// unlocking.
    pub unlock_threshold: i16,
}

/// Global timing parameters, all in whole seconds.
pub struct Timings {
    /// Seconds between poll cycles.
    pub poll_interval: u64,
    /// Minimum seconds between reconnect attempts per device; also the
    /// period of the cumulative reconnect pacing counter.
    pub reconnect_interval: u64,
    /// Required consecutive weak duration before locking.
    pub lock_hold_seconds: u64,
    /// Required consecutive in-range duration before unlocking.
    pub unlock_hold_seconds: u64,
}

/// The whole configuration, loaded once at startup.
pub struct Config {
    pub devices: Vec<DeviceConfig>,
    pub thresholds: Thresholds,
    pub timings: Timings,
}

} // verus!
