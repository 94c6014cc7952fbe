//! Per-cycle aggregation over the enabled devices' readings, and the
//! pacing of the reconnect path.
//!
//! Each poll cycle hands the library one reading per configured device
//! (`None` where the probe returned nothing). The aggregates are computed
//! fresh each cycle: `any_connected`, `all_weak` and `any_in_range` feed
//! the lock engine, and the list of reconnect candidates feeds the
//! debouncer. An engine with no signal information must never lock, so
//! `all_weak` is forced false whenever no enabled device answered.

use vstd::prelude::*;

use crate::config::{DeviceConfig, Thresholds, Timings};
use crate::engine::{cycle_action, LockAction, ProximityLockEngine};

verus! {

/// The aggregates of one poll cycle, derived from the readings and
/// discarded after use.
#[derive(Clone, Copy, PartialEq, Eq, Structural, Debug)]
pub struct CycleSignal {
    /// Some enabled device returned a reading this cycle.
    pub any_connected: bool,
    /// Some enabled device answered, and every enabled device that
    /// answered read below the lock threshold.
    pub all_weak: bool,
    /// The screen is locked and some enabled device read strictly above
    /// the unlock threshold.
    pub any_in_range: bool,
}

/// Whether device `i` answered this cycle and counts toward the
/// aggregates: it must be enabled and have returned a reading.
pub open spec fn connected_at(
    devices: Seq<DeviceConfig>,
    readings: Seq<Option<i16>>,
    i: int,
) -> bool {
    devices[i].enabled && readings[i] is Some
}

/// Some enabled device returned a reading.
pub open spec fn spec_any_connected(
    devices: Seq<DeviceConfig>,
    readings: Seq<Option<i16>>,
) -> bool {
    exists|i: int| 0 <= i < devices.len() && #[trigger] connected_at(devices, readings, i)
}

/// Every enabled device that answered read below `lock_threshold`, and
/// at least one did answer. On total silence this is false: no signal
/// information must never cause a lock.
pub open spec fn spec_all_weak(
    devices: Seq<DeviceConfig>,
    readings: Seq<Option<i16>>,
    lock_threshold: i16,
) -> bool {
    &&& spec_any_connected(devices, readings)
    &&& forall|i: int|
        0 <= i < devices.len() && #[trigger] connected_at(devices, readings, i)
            ==> readings[i]->Some_0 < lock_threshold
}

/// The screen is locked and some enabled device read strictly above
/// `unlock_threshold`. Only consumed for unlock decisions, so it is
/// defined false while unlocked.
pub open spec fn spec_any_in_range(
    devices: Seq<DeviceConfig>,
    readings: Seq<Option<i16>>,
    unlock_threshold: i16,
    locked: bool,
) -> bool {
    locked && exists|i: int|
        0 <= i < devices.len() && #[trigger] connected_at(devices, readings, i)
            && readings[i]->Some_0 > unlock_threshold
}

/// Whether device `i` should be queued for a debounced reconnect
/// attempt: enabled, marked auto-connect, and silent this cycle.
pub open spec fn reconnect_candidate_at(
    devices: Seq<DeviceConfig>,
    readings: Seq<Option<i16>>,
    i: int,
) -> bool {
    devices[i].enabled && devices[i].auto_connect && readings[i] is None
}

/// Law: a cycle in which no enabled device returns a reading never
/// reports all-weak, whatever the threshold and whatever came before:
/// total silence must never cause a lock.
pub proof fn lemma_silence_never_weak(
    devices: Seq<DeviceConfig>,
    readings: Seq<Option<i16>>,
    lock_threshold: i16,
)
    requires
        forall|i: int|
            0 <= i < devices.len() ==> !(#[trigger] connected_at(devices, readings, i)),
    ensures
        !spec_any_connected(devices, readings),
        !spec_all_weak(devices, readings, lock_threshold),
{
}

/// Law: a cycle in which no enabled device returns a reading can never
/// ask for a lock actuation, whatever the engine's state and history:
/// its aggregates report not-all-weak, and a not-all-weak cycle asks
/// for no lock.
pub proof fn lemma_never_lock_on_silence(
    devices: Seq<DeviceConfig>,
    readings: Seq<Option<i16>>,
    lock_threshold: i16,
    e: ProximityLockEngine,
    any_in_range: bool,
    t: Timings,
)
    requires
        forall|i: int|
            0 <= i < devices.len() ==> !(#[trigger] connected_at(devices, readings, i)),
    ensures
        cycle_action(
            e,
            spec_all_weak(devices, readings, lock_threshold),
            any_in_range,
            t,
        ) != LockAction::Lock,
{
    lemma_silence_never_weak(devices, readings, lock_threshold);
}

/// Compute the cycle's aggregates from one reading per configured
/// device. Disabled devices contribute nothing; an unreadable device
/// contributes nothing to the weak determination beyond removing itself
/// from `any_connected`.
pub fn aggregate(
    devices: &Vec<DeviceConfig>,
    readings: &Vec<Option<i16>>,
    thresholds: &Thresholds,
    locked: bool,
) -> (sig: CycleSignal)
    requires
        readings@.len() == devices@.len(),
    ensures
        sig.any_connected == spec_any_connected(devices@, readings@),
        sig.all_weak == spec_all_weak(devices@, readings@, thresholds.lock_threshold),
        sig.any_in_range == spec_any_in_range(
            devices@,
            readings@,
            thresholds.unlock_threshold,
            locked,
        ),
{
    let mut any_connected = false;
    let mut weak_so_far = true;
    let mut in_range = false;
    let mut i: usize = 0;
    while i < devices.len()
        invariant
            readings@.len() == devices@.len(),
            i <= devices@.len(),
            any_connected == exists|j: int|
                0 <= j < i && #[trigger] connected_at(devices@, readings@, j),
            weak_so_far == forall|j: int|
                0 <= j < i && #[trigger] connected_at(devices@, readings@, j)
                    ==> readings@[j]->Some_0 < thresholds.lock_threshold,
            in_range == exists|j: int|
                0 <= j < i && #[trigger] connected_at(devices@, readings@, j)
                    && readings@[j]->Some_0 > thresholds.unlock_threshold,
        decreases devices@.len() - i,
    {
        if devices[i].enabled {
            match readings[i] {
                Some(rssi) => {
                    any_connected = true;
                    if rssi >= thresholds.lock_threshold {
                        weak_so_far = false;
                    }
                    if rssi > thresholds.unlock_threshold {
                        in_range = true;
                    }
                },
                None => {},
            }
        }
        proof {
            assert(connected_at(devices@, readings@, i as int) == (devices@[i as int].enabled
                && readings@[i as int] is Some));
        }
        i = i + 1;
    }
    CycleSignal {
        any_connected,
        all_weak: any_connected && weak_so_far,
        any_in_range: locked && in_range,
    }
}

/// List the indices of the devices that should be queued for a
/// reconnect attempt this cycle, in increasing order.
pub fn reconnect_candidates(
    devices: &Vec<DeviceConfig>,
    readings: &Vec<Option<i16>>,
) -> (r: Vec<usize>)
    requires
        readings@.len() == devices@.len(),
    ensures
        forall|k: int|
            0 <= k < r@.len() ==> r@[k] < devices@.len()
                && reconnect_candidate_at(devices@, readings@, #[trigger] r@[k] as int),
        forall|i: int|
            0 <= i < devices@.len() && #[trigger] reconnect_candidate_at(devices@, readings@, i)
                ==> r@.contains(i as usize),
        forall|k1: int, k2: int| 0 <= k1 < k2 < r@.len() ==> #[trigger] r@[k1] < #[trigger] r@[k2],
{
    let mut r: Vec<usize> = Vec::new();
    let mut i: usize = 0;
    while i < devices.len()
        invariant
            readings@.len() == devices@.len(),
            i <= devices@.len(),
            forall|k: int|
                0 <= k < r@.len() ==> r@[k] < i
                    && reconnect_candidate_at(devices@, readings@, #[trigger] r@[k] as int),
            forall|j: int|
                0 <= j < i && #[trigger] reconnect_candidate_at(devices@, readings@, j)
                    ==> r@.contains(j as usize),
            forall|k1: int, k2: int|
                0 <= k1 < k2 < r@.len() ==> #[trigger] r@[k1] < #[trigger] r@[k2],
        decreases devices@.len() - i,
    {
        if devices[i].enabled && devices[i].auto_connect && readings[i].is_none() {
            let ghost r0 = r@;
            r.push(i);
            proof {
                assert forall|j: int|
                    0 <= j < i + 1 && #[trigger] reconnect_candidate_at(
                        devices@,
                        readings@,
                        j,
                    ) implies r@.contains(j as usize) by {
                    if j < i {
                        let k = choose|k: int| 0 <= k < r0.len() && r0[k] == j as usize;
                        assert(r@[k] == j as usize);
                    } else {
                        assert(r@[r0.len() as int] == i);
                    }
                }
            }
        }
        proof {
            assert(reconnect_candidate_at(devices@, readings@, i as int) == (devices@[
                i as int].enabled && devices@[i as int].auto_connect && readings@[
                i as int] is None));
        }
        i = i + 1;
    }
    r
}

/// The reconnect pacing counter after one cycle: it accumulates the poll
/// interval (saturating), and fires — resetting to zero — once it has
/// reached the reconnect interval while there is some candidate to try.
pub open spec fn spec_reconnect_counter_step(
    counter: u64,
    poll_interval: u64,
    reconnect_interval: u64,
    have_candidates: bool,
) -> (u64, bool) {
    let grown: u64 = if counter + poll_interval <= u64::MAX {
        (counter + poll_interval) as u64
    } else {
        u64::MAX
    };
    if grown >= reconnect_interval && have_candidates {
        (0u64, true)
    } else {
        (grown, false)
    }
}

/// Advance the reconnect pacing counter by one cycle. The returned flag
/// says whether the reconnect path should run this cycle; when it does,
/// the counter restarts from zero.
pub fn reconnect_counter_step(
    counter: u64,
    poll_interval: u64,
    reconnect_interval: u64,
    have_candidates: bool,
) -> (r: (u64, bool))
    ensures
        r == spec_reconnect_counter_step(
            counter,
            poll_interval,
            reconnect_interval,
            have_candidates,
        ),
{
    let grown: u64 = if counter <= u64::MAX - poll_interval {
        counter + poll_interval
    } else {
        u64::MAX
    };
    if grown >= reconnect_interval && have_candidates {
        (0, true)
    } else {
        (grown, false)
    }
}

} // verus!
