//! Proximity-based screen locking, as a verified core.
//!
//! The library holds the decision logic of a Bluetooth proximity locker:
//! the hysteresis state machine that turns noisy per-cycle signal readings
//! into stable lock/unlock actions, the per-cycle aggregation policy over
//! all enabled devices, the reconnect-attempt debouncer, and the verified
//! interpretation of the probe tool's textual output. All I/O (running the
//! probe commands, actuating the screen lock, sleeping between cycles)
//! stays outside the library and hands plain values in and out.

pub mod bluetooth;
pub mod config;
pub mod engine;
pub mod probe;
pub mod signals;
