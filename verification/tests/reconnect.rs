use hyprproxlock::bluetooth::BluetoothManager;
use hyprproxlock::config::DeviceConfig;
use hyprproxlock::signals::{reconnect_candidates, reconnect_counter_step};

#[test]
fn first_attempt_always_permitted() {
    let tracker = BluetoothManager::new();
    assert!(tracker.should_attempt("AA:BB:CC:DD:EE:FF", 0, 60));
    assert!(tracker.should_attempt("AA:BB:CC:DD:EE:FF", 1000, 60));
}

#[test]
fn cooldown_suppresses_repeat_attempts() {
    let mut tracker = BluetoothManager::new();
    tracker.record_attempt("AA:BB:CC:DD:EE:FF", 100);
    assert!(!tracker.should_attempt("AA:BB:CC:DD:EE:FF", 100, 60));
    assert!(!tracker.should_attempt("AA:BB:CC:DD:EE:FF", 159, 60));
    assert!(tracker.should_attempt("AA:BB:CC:DD:EE:FF", 160, 60));
    assert!(tracker.should_attempt("AA:BB:CC:DD:EE:FF", 500, 60));
}

#[test]
fn devices_are_tracked_independently() {
    let mut tracker = BluetoothManager::new();
    tracker.record_attempt("AA:BB:CC:DD:EE:FF", 100);
    // A different device is unaffected by the first one's cooldown.
    assert!(tracker.should_attempt("11:22:33:44:55:66", 101, 60));
    tracker.record_attempt("11:22:33:44:55:66", 101);
    assert!(!tracker.should_attempt("11:22:33:44:55:66", 102, 60));
    // Updating one device leaves the other's entry alone.
    tracker.record_attempt("AA:BB:CC:DD:EE:FF", 200);
    assert!(!tracker.should_attempt("11:22:33:44:55:66", 102, 60));
    assert!(!tracker.should_attempt("AA:BB:CC:DD:EE:FF", 259, 60));
    assert!(tracker.should_attempt("AA:BB:CC:DD:EE:FF", 260, 60));
}

#[test]
fn zero_interval_never_suppresses() {
    let mut tracker = BluetoothManager::new();
    tracker.record_attempt("AA:BB:CC:DD:EE:FF", 100);
    assert!(tracker.should_attempt("AA:BB:CC:DD:EE:FF", 100, 0));
}

fn device(mac: &str, enabled: bool, auto_connect: bool) -> DeviceConfig {
    DeviceConfig {
        mac_address: String::from(mac),
        name: String::from(mac),
        enabled,
        auto_connect,
    }
}

#[test]
fn candidates_are_silent_enabled_auto_connect_devices() {
    let devices = vec![
        device("AA:00:00:00:00:00", true, true),
        device("BB:00:00:00:00:00", true, false),
        device("CC:00:00:00:00:00", false, true),
        device("DD:00:00:00:00:00", true, true),
    ];
    // First silent (candidate), second silent but not auto-connect,
    // third disabled, fourth still answering.
    let readings = vec![None, None, None, Some(-80)];
    let picked = reconnect_candidates(&devices, &readings);
    assert_eq!(picked, vec![0]);
    // Once the fourth goes silent too it joins, in order.
    let readings = vec![None, None, None, None];
    let picked = reconnect_candidates(&devices, &readings);
    assert_eq!(picked, vec![0, 3]);
}

#[test]
fn reconnect_pacing_counter_fires_on_period() {
    // The counter accumulates the poll interval each cycle and fires
    // only once it reaches the reconnect interval with candidates
    // waiting.
    assert_eq!(reconnect_counter_step(0, 5, 60, true), (5, false));
    assert_eq!(reconnect_counter_step(55, 5, 60, true), (0, true));
    // Without candidates it keeps accumulating instead of firing.
    assert_eq!(reconnect_counter_step(55, 5, 60, false), (60, false));
    assert_eq!(reconnect_counter_step(60, 5, 60, true), (0, true));
}

#[test]
fn pacing_counter_saturates_instead_of_wrapping() {
    assert_eq!(reconnect_counter_step(u64::MAX - 1, 5, u64::MAX, false), (u64::MAX, false));
    assert_eq!(reconnect_counter_step(u64::MAX, 5, u64::MAX, true), (0, true));
}
