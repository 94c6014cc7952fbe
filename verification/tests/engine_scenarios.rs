use hyprproxlock::config::{DeviceConfig, Thresholds, Timings};
use hyprproxlock::engine::{LockAction, ProximityLockEngine};
use hyprproxlock::signals::aggregate;

fn test_timings() -> Timings {
    Timings {
        poll_interval: 5,
        reconnect_interval: 60,
        lock_hold_seconds: 15,
        unlock_hold_seconds: 10,
    }
}

fn test_thresholds() -> Thresholds {
    Thresholds { lock_threshold: -70, unlock_threshold: -50 }
}

fn one_device() -> Vec<DeviceConfig> {
    vec![DeviceConfig {
        mac_address: String::from("AA:BB:CC:DD:EE:FF"),
        name: String::from("phone"),
        enabled: true,
        auto_connect: true,
    }]
}

/// Feed one cycle with the given reading; returns the requested action
/// after applying it with the given actuation outcome.
fn cycle(
    engine: &mut ProximityLockEngine,
    reading: Option<i16>,
    actuation_ok: bool,
) -> LockAction {
    let devices = one_device();
    let readings = vec![reading];
    let sig = aggregate(&devices, &readings, &test_thresholds(), engine.locked);
    let action = engine.advance(sig.all_weak, sig.any_in_range, &test_timings());
    if action != LockAction::Idle {
        engine.apply_actuation(action, actuation_ok);
    }
    action
}

#[test]
fn three_weak_cycles_lock_exactly_once() {
    let mut engine = ProximityLockEngine::new();
    assert_eq!(cycle(&mut engine, Some(-80), true), LockAction::Idle);
    assert_eq!(engine.lock_timer, 5);
    assert_eq!(cycle(&mut engine, Some(-80), true), LockAction::Idle);
    assert_eq!(engine.lock_timer, 10);
    assert_eq!(cycle(&mut engine, Some(-80), true), LockAction::Lock);
    assert!(engine.locked);
    assert_eq!(engine.lock_timer, 0);
    // Further weak cycles must not ask for another lock.
    assert_eq!(cycle(&mut engine, Some(-80), true), LockAction::Idle);
    assert_eq!(cycle(&mut engine, Some(-80), true), LockAction::Idle);
    assert!(engine.locked);
}

#[test]
fn strong_reading_resets_lock_timer() {
    let mut engine = ProximityLockEngine::new();
    // -80, -80, -40, -80, -80, -80: the -40 resets the accumulation, so
    // the lock fires only at the sixth cycle.
    assert_eq!(cycle(&mut engine, Some(-80), true), LockAction::Idle);
    assert_eq!(cycle(&mut engine, Some(-80), true), LockAction::Idle);
    assert_eq!(cycle(&mut engine, Some(-40), true), LockAction::Idle);
    assert_eq!(engine.lock_timer, 0);
    assert_eq!(cycle(&mut engine, Some(-80), true), LockAction::Idle);
    assert_eq!(cycle(&mut engine, Some(-80), true), LockAction::Idle);
    assert_eq!(cycle(&mut engine, Some(-80), true), LockAction::Lock);
    assert!(engine.locked);
}

#[test]
fn unreadable_cycle_forces_not_weak() {
    let mut engine = ProximityLockEngine::new();
    assert_eq!(cycle(&mut engine, Some(-80), true), LockAction::Idle);
    assert_eq!(cycle(&mut engine, Some(-80), true), LockAction::Idle);
    assert_eq!(engine.lock_timer, 10);
    // The only device goes silent: all_weak is forced false and the
    // timer resets, so no lock can fire on total silence.
    let devices = one_device();
    let readings: Vec<Option<i16>> = vec![None];
    let sig = aggregate(&devices, &readings, &test_thresholds(), engine.locked);
    assert!(!sig.any_connected);
    assert!(!sig.all_weak);
    assert_eq!(cycle(&mut engine, None, true), LockAction::Idle);
    assert_eq!(engine.lock_timer, 0);
    assert!(!engine.locked);
}

#[test]
fn failed_lock_actuation_retries_next_cycle() {
    let mut engine = ProximityLockEngine::new();
    cycle(&mut engine, Some(-80), true);
    cycle(&mut engine, Some(-80), true);
    // The lock command fails: state must be unchanged so the next
    // qualifying cycle retries.
    assert_eq!(cycle(&mut engine, Some(-80), false), LockAction::Lock);
    assert!(!engine.locked);
    assert_eq!(cycle(&mut engine, Some(-80), true), LockAction::Lock);
    assert!(engine.locked);
}

#[test]
fn unlock_needs_full_hold_while_locked() {
    let mut engine = ProximityLockEngine::new();
    cycle(&mut engine, Some(-80), true);
    cycle(&mut engine, Some(-80), true);
    assert_eq!(cycle(&mut engine, Some(-80), true), LockAction::Lock);
    assert!(engine.locked);
    // -40 is above the unlock threshold of -50: two cycles of 5 s reach
    // the 10 s unlock hold.
    assert_eq!(cycle(&mut engine, Some(-40), true), LockAction::Idle);
    assert_eq!(engine.unlock_timer, 5);
    assert_eq!(cycle(&mut engine, Some(-40), true), LockAction::Unlock);
    assert!(!engine.locked);
    assert_eq!(engine.unlock_timer, 0);
    // Unlocked again: further in-range readings ask for nothing.
    assert_eq!(cycle(&mut engine, Some(-40), true), LockAction::Idle);
    assert_eq!(engine.unlock_timer, 0);
}

#[test]
fn unlock_timer_only_accumulates_while_locked() {
    let mut engine = ProximityLockEngine::new();
    // Strong in-range readings while unlocked: the unlock timer stays
    // at zero, and no unlock is ever requested while unlocked.
    for _ in 0..5 {
        assert_eq!(cycle(&mut engine, Some(-40), true), LockAction::Idle);
        assert_eq!(engine.unlock_timer, 0);
    }
}

#[test]
fn disabled_device_contributes_nothing() {
    let devices = vec![
        DeviceConfig {
            mac_address: String::from("AA:BB:CC:DD:EE:FF"),
            name: String::from("phone"),
            enabled: false,
            auto_connect: true,
        },
    ];
    // The disabled device reads strong, but it must be ignored: nothing
    // is connected, so all_weak is false.
    let readings = vec![Some(-10)];
    let sig = aggregate(&devices, &readings, &test_thresholds(), false);
    assert!(!sig.any_connected);
    assert!(!sig.all_weak);
    assert!(!sig.any_in_range);
}

#[test]
fn aggregate_over_several_devices() {
    let mut devices = one_device();
    devices.push(DeviceConfig {
        mac_address: String::from("11:22:33:44:55:66"),
        name: String::from("watch"),
        enabled: true,
        auto_connect: false,
    });
    let thresholds = test_thresholds();
    // Both weak: all_weak holds.
    let sig = aggregate(&devices, &vec![Some(-80), Some(-75)], &thresholds, false);
    assert!(sig.any_connected);
    assert!(sig.all_weak);
    // One device at the lock threshold prevents locking.
    let sig = aggregate(&devices, &vec![Some(-80), Some(-70)], &thresholds, false);
    assert!(!sig.all_weak);
    // One silent, one weak: still all weak.
    let sig = aggregate(&devices, &vec![None, Some(-80)], &thresholds, false);
    assert!(sig.any_connected);
    assert!(sig.all_weak);
    // In range only counts while locked, and only above the threshold.
    let sig = aggregate(&devices, &vec![Some(-49), None], &thresholds, true);
    assert!(sig.any_in_range);
    let sig = aggregate(&devices, &vec![Some(-50), None], &thresholds, true);
    assert!(!sig.any_in_range);
}

#[test]
fn empty_device_list_never_weak() {
    let devices: Vec<DeviceConfig> = Vec::new();
    let readings: Vec<Option<i16>> = Vec::new();
    let sig = aggregate(&devices, &readings, &test_thresholds(), false);
    assert!(!sig.any_connected);
    assert!(!sig.all_weak);
    assert!(!sig.any_in_range);
}

#[test]
fn timers_saturate_instead_of_wrapping() {
    let mut engine = ProximityLockEngine::new();
    engine.lock_timer = u64::MAX - 2;
    engine.update_timers(true, false, 5);
    assert_eq!(engine.lock_timer, u64::MAX);
    engine.update_timers(true, false, 5);
    assert_eq!(engine.lock_timer, u64::MAX);
    engine.update_timers(false, false, 5);
    assert_eq!(engine.lock_timer, 0);
}
