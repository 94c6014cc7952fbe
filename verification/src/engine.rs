//! The proximity lock engine: a hysteresis state machine that turns the
//! per-cycle aggregate signals into stable lock/unlock actions.
//!
//! The engine holds the believed screen state (`locked`) and two duration
//! accumulators. Once per poll cycle the caller feeds it the aggregates of
//! that cycle (`all_weak`, `any_in_range`); the engine advances its timers
//! and names the actuation, if any, that the caller should perform. The
//! caller reports back whether the actuation succeeded; on failure the
//! state is left unchanged, so the next cycle retries.

use vstd::prelude::*;

use crate::config::Timings;

verus! {

/// The actuation, if any, that a poll cycle asks the caller to perform.
#[derive(Clone, Copy, PartialEq, Eq, Structural, Debug)]
pub enum LockAction {
    /// No threshold crossing this cycle: perform nothing.
    Idle,
    /// Lock the screen.
    Lock,
    /// Unlock the screen.
    Unlock,
}

/// The hysteresis state machine. `locked` starts false and both timers
/// start at zero; the state is owned by a single poll loop and mutated
/// once per cycle.
#[derive(Clone, Copy, PartialEq, Eq, Structural, Debug)]
pub struct ProximityLockEngine {
    /// Whether the engine believes the screen is currently locked.
    pub locked: bool,
    /// Accumulated consecutive seconds during which every connected
    /// device read weak.
    pub lock_timer: u64,
    /// Accumulated consecutive seconds during which, while locked, some
    /// device read in range.
    pub unlock_timer: u64,
}

/// The lock timer after one cycle: it accumulates (saturating) while
/// `all_weak` holds and resets to zero the moment it does not.
pub open spec fn next_lock_timer(lock_timer: u64, all_weak: bool, poll_interval: u64) -> u64 {
    if all_weak {
        if lock_timer + poll_interval <= u64::MAX {
            (lock_timer + poll_interval) as u64
        } else {
            u64::MAX
        }
    } else {
        0
    }
}

/// The unlock timer after one cycle: it accumulates (saturating) only
/// while the screen is locked and some device reads in range; otherwise
/// it resets to zero.
pub open spec fn next_unlock_timer(
    unlock_timer: u64,
    any_in_range: bool,
    locked: bool,
    poll_interval: u64,
) -> u64 {
    if any_in_range && locked {
        if unlock_timer + poll_interval <= u64::MAX {
            (unlock_timer + poll_interval) as u64
        } else {
            u64::MAX
        }
    } else {
        0
    }
}

/// The whole engine state after the timer step of one cycle.
pub open spec fn timers_advanced(
    e: ProximityLockEngine,
    all_weak: bool,
    any_in_range: bool,
    poll_interval: u64,
) -> ProximityLockEngine {
    ProximityLockEngine {
        locked: e.locked,
        lock_timer: next_lock_timer(e.lock_timer, all_weak, poll_interval),
        unlock_timer: next_unlock_timer(e.unlock_timer, any_in_range, e.locked, poll_interval),
    }
}

/// The actuation a cycle asks for, judged on the state after the timer
/// step. A lock is asked for only while unlocked, an unlock only while
/// locked, and each only once its hold duration has accumulated.
pub open spec fn chosen_action(
    e: ProximityLockEngine,
    all_weak: bool,
    any_in_range: bool,
    lock_hold_seconds: u64,
    unlock_hold_seconds: u64,
) -> LockAction {
    if all_weak && !e.locked && e.lock_timer >= lock_hold_seconds {
        LockAction::Lock
    } else if any_in_range && e.locked && e.unlock_timer >= unlock_hold_seconds {
        LockAction::Unlock
    } else {
        LockAction::Idle
    }
}

/// The engine state after the caller reports the actuation's outcome.
/// Success flips `locked` and resets the timer of the direction that
/// fired; failure leaves the state untouched, so the next cycle retries.
pub open spec fn actuation_applied(
    e: ProximityLockEngine,
    action: LockAction,
    success: bool,
) -> ProximityLockEngine {
    if success && action == LockAction::Lock {
        ProximityLockEngine { locked: true, lock_timer: 0, unlock_timer: e.unlock_timer }
    } else if success && action == LockAction::Unlock {
        ProximityLockEngine { locked: false, lock_timer: e.lock_timer, unlock_timer: 0 }
    } else {
        e
    }
}

/// The action one whole cycle asks for, from the state at the cycle's
/// start and the cycle's aggregates.
pub open spec fn cycle_action(
    e: ProximityLockEngine,
    all_weak: bool,
    any_in_range: bool,
    t: Timings,
) -> LockAction {
    chosen_action(
        timers_advanced(e, all_weak, any_in_range, t.poll_interval),
        all_weak,
        any_in_range,
        t.lock_hold_seconds,
        t.unlock_hold_seconds,
    )
}

/// The state after one whole cycle: timer step, then the actuation's
/// outcome (`success` is ignored when the cycle asks for nothing).
pub open spec fn cycle_state(
    e: ProximityLockEngine,
    all_weak: bool,
    any_in_range: bool,
    t: Timings,
    success: bool,
) -> ProximityLockEngine {
    actuation_applied(
        timers_advanced(e, all_weak, any_in_range, t.poll_interval),
        cycle_action(e, all_weak, any_in_range, t),
        success,
    )
}

/// The engine after `n` consecutive cycles in which every connected
/// device reads weak and nothing is in range, with every requested
/// actuation succeeding.
pub open spec fn run_weak_cycles(
    e: ProximityLockEngine,
    t: Timings,
    n: nat,
) -> ProximityLockEngine
    decreases n,
{
    if n == 0 {
        e
    } else {
        cycle_state(run_weak_cycles(e, t, (n - 1) as nat), true, false, t, true)
    }
}

/// Whether the cycle of index `i` of such an all-weak run asks for a
/// lock actuation.
pub open spec fn weak_cycle_fires(e: ProximityLockEngine, t: Timings, i: nat) -> bool {
    cycle_action(run_weak_cycles(e, t, i), true, false, t) == LockAction::Lock
}

/// The engine after `n` consecutive cycles in which some device reads
/// in range and not all read weak, with every requested actuation
/// succeeding.
pub open spec fn run_in_range_cycles(
    e: ProximityLockEngine,
    t: Timings,
    n: nat,
) -> ProximityLockEngine
    decreases n,
{
    if n == 0 {
        e
    } else {
        cycle_state(run_in_range_cycles(e, t, (n - 1) as nat), false, true, t, true)
    }
}

/// Whether the cycle of index `i` of such an in-range run asks for an
/// unlock actuation.
pub open spec fn in_range_cycle_fires(e: ProximityLockEngine, t: Timings, i: nat) -> bool {
    cycle_action(run_in_range_cycles(e, t, i), false, true, t) == LockAction::Unlock
}

impl ProximityLockEngine {
    /// The engine's invariant: the unlock timer only ever accumulates
    /// while locked, so it is zero whenever the screen is unlocked.
    pub open spec fn wf(self) -> bool {
        !self.locked ==> self.unlock_timer == 0
    }

    /// A fresh engine: unlocked, both timers at zero.
    pub fn new() -> (e: Self)
        ensures
            !e.locked,
            e.lock_timer == 0,
            e.unlock_timer == 0,
    {
        ProximityLockEngine { locked: false, lock_timer: 0, unlock_timer: 0 }
    }

    /// The timer step of one cycle: the lock timer accumulates while
    /// `all_weak` holds and resets otherwise; the unlock timer
    /// accumulates only while locked and in range, and resets otherwise.
    pub fn update_timers(&mut self, all_weak: bool, any_in_range: bool, poll_interval: u64)
        ensures
            *final(self) == timers_advanced(*old(self), all_weak, any_in_range, poll_interval),
    {
        if all_weak {
            if self.lock_timer <= u64::MAX - poll_interval {
                self.lock_timer = self.lock_timer + poll_interval;
            } else {
                self.lock_timer = u64::MAX;
            }
        } else {
            self.lock_timer = 0;
        }
        if any_in_range && self.locked {
            if self.unlock_timer <= u64::MAX - poll_interval {
                self.unlock_timer = self.unlock_timer + poll_interval;
            } else {
                self.unlock_timer = u64::MAX;
            }
        } else {
            self.unlock_timer = 0;
        }
    }

    /// One cycle's decision: advance the timers, then name the actuation
    /// the caller should perform, if any.
    pub fn advance(&mut self, all_weak: bool, any_in_range: bool, t: &Timings) -> (a: LockAction)
        ensures
            *final(self) == timers_advanced(*old(self), all_weak, any_in_range, t.poll_interval),
            a == cycle_action(*old(self), all_weak, any_in_range, *t),
            a == LockAction::Lock ==> !final(self).locked,
            a == LockAction::Unlock ==> final(self).locked,
    {
        self.update_timers(all_weak, any_in_range, t.poll_interval);
        if all_weak && !self.locked && self.lock_timer >= t.lock_hold_seconds {
            LockAction::Lock
        } else if any_in_range && self.locked && self.unlock_timer >= t.unlock_hold_seconds {
            LockAction::Unlock
        } else {
            LockAction::Idle
        }
    }

    /// Record the outcome of the actuation that `advance` asked for.
    /// Success flips the lock state and resets the timer that fired;
    /// failure changes nothing, so the next qualifying cycle retries.
    pub fn apply_actuation(&mut self, action: LockAction, success: bool)
        requires
            action == LockAction::Lock ==> !old(self).locked,
            action == LockAction::Unlock ==> old(self).locked,
        ensures
            *final(self) == actuation_applied(*old(self), action, success),
    {
        if success {
            if action == LockAction::Lock {
                self.locked = true;
                self.lock_timer = 0;
            } else if action == LockAction::Unlock {
                self.locked = false;
                self.unlock_timer = 0;
            }
        }
    }
}

/// Law: every cycle preserves the engine's invariant.
pub proof fn lemma_cycle_preserves_wf(
    e: ProximityLockEngine,
    all_weak: bool,
    any_in_range: bool,
    t: Timings,
    success: bool,
)
    requires
        e.wf(),
    ensures
        cycle_state(e, all_weak, any_in_range, t, success).wf(),
{
}

/// Law: a cycle in which not every connected device reads weak resets
/// the lock timer to zero and asks for no lock actuation, whatever the
/// prior accumulation.
pub proof fn lemma_strong_reading_resets_lock_timer(
    e: ProximityLockEngine,
    any_in_range: bool,
    t: Timings,
    success: bool,
)
    ensures
        cycle_state(e, false, any_in_range, t, success).lock_timer == 0,
        cycle_action(e, false, any_in_range, t) != LockAction::Lock,
{
}

/// Law: a cycle only ever asks for a lock while unlocked, and for an
/// unlock while locked.
pub proof fn lemma_actions_respect_lock_state(
    e: ProximityLockEngine,
    all_weak: bool,
    any_in_range: bool,
    t: Timings,
)
    ensures
        cycle_action(e, all_weak, any_in_range, t) == LockAction::Lock ==> !e.locked,
        cycle_action(e, all_weak, any_in_range, t) == LockAction::Unlock ==> e.locked,
{
}

proof fn lemma_weak_run_state(e0: ProximityLockEngine, t: Timings, i: nat)
    requires
        !e0.locked,
        e0.lock_timer == 0,
        e0.unlock_timer == 0,
        1 <= t.poll_interval,
        t.lock_hold_seconds + t.poll_interval <= u64::MAX,
    ensures
        i * t.poll_interval < t.lock_hold_seconds ==> run_weak_cycles(e0, t, i)
            == (ProximityLockEngine {
            locked: false,
            lock_timer: (i * t.poll_interval) as u64,
            unlock_timer: 0,
        }),
        i >= 1 && i * t.poll_interval >= t.lock_hold_seconds ==> run_weak_cycles(
            e0,
            t,
            i,
        ).locked,
    decreases i,
{
    if i >= 1 {
        let j = (i - 1) as nat;
        lemma_weak_run_state(e0, t, j);
        assert(j * t.poll_interval == i * t.poll_interval - t.poll_interval)
            by (nonlinear_arith)
            requires
                j == i - 1,
        ;
        assert(j * t.poll_interval >= 0) by (nonlinear_arith)
            requires
                j >= 0,
                t.poll_interval >= 0,
        ;
        let prev = run_weak_cycles(e0, t, j);
        let cur = run_weak_cycles(e0, t, i);
        assert(cur == cycle_state(prev, true, false, t, true));
        if i * t.poll_interval < t.lock_hold_seconds {
            assert(j * t.poll_interval < t.lock_hold_seconds);
            assert(prev == (ProximityLockEngine { locked: false, lock_timer: (j * t.poll_interval) as u64, unlock_timer: 0 }));
            assert(prev.lock_timer + t.poll_interval == i * t.poll_interval);
            assert(timers_advanced(prev, true, false, t.poll_interval).lock_timer
                == i * t.poll_interval);
            assert(cycle_action(prev, true, false, t) == LockAction::Idle);
            assert(cur == (ProximityLockEngine { locked: false, lock_timer: (i * t.poll_interval) as u64, unlock_timer: 0 }));
        } else {
            if j * t.poll_interval < t.lock_hold_seconds {
                assert(prev == (ProximityLockEngine { locked: false, lock_timer: (j * t.poll_interval) as u64, unlock_timer: 0 }));
                assert(prev.lock_timer + t.poll_interval == i * t.poll_interval);
                assert(timers_advanced(prev, true, false, t.poll_interval).lock_timer
                    >= t.lock_hold_seconds);
                assert(cycle_action(prev, true, false, t) == LockAction::Lock);
                assert(cur.locked == true);
            } else if j >= 1 {
                assert(prev.locked);
                assert(cycle_action(prev, true, false, t) != LockAction::Lock);
                assert(cur.locked);
            } else {
                assert(j * t.poll_interval == 0) by (nonlinear_arith)
                    requires
                        j == 0,
                ;
                assert(t.lock_hold_seconds == 0);
                assert(prev == e0);
                assert(cycle_action(prev, true, false, t) == LockAction::Lock);
                assert(cur.locked == true);
            }
        }
    } else {
        assert(i * t.poll_interval == 0) by (nonlinear_arith)
            requires
                i == 0,
        ;
    }
}

/// Law: starting unlocked with clear timers, over consecutive all-weak
/// cycles whose requested actuations succeed, a lock actuation is asked
/// for at exactly the cycle where the accumulated weak duration first
/// reaches the hold duration — and at no other cycle.
pub proof fn lemma_lock_fires_exactly_once(e0: ProximityLockEngine, t: Timings, i: nat)
    requires
        !e0.locked,
        e0.lock_timer == 0,
        e0.unlock_timer == 0,
        1 <= t.poll_interval,
        t.lock_hold_seconds + t.poll_interval <= u64::MAX,
    ensures
        weak_cycle_fires(e0, t, i) <==> ((i + 1) * t.poll_interval >= t.lock_hold_seconds && (
        i == 0 || i * t.poll_interval < t.lock_hold_seconds)),
{
    lemma_weak_run_state(e0, t, i);
    assert(i * t.poll_interval + t.poll_interval == (i + 1) * t.poll_interval)
        by (nonlinear_arith);
    assert(i >= 1 ==> i * t.poll_interval >= t.poll_interval) by (nonlinear_arith)
        requires
            1 <= t.poll_interval,
    ;
}

/// Law: no two distinct cycles of an all-weak run both ask for a lock:
/// the actuation is issued once, not once per cycle past the threshold.
pub proof fn lemma_lock_fires_at_most_once(e0: ProximityLockEngine, t: Timings, i: nat, j: nat)
    requires
        !e0.locked,
        e0.lock_timer == 0,
        e0.unlock_timer == 0,
        1 <= t.poll_interval,
        t.lock_hold_seconds + t.poll_interval <= u64::MAX,
        weak_cycle_fires(e0, t, i),
        weak_cycle_fires(e0, t, j),
    ensures
        i == j,
{
    lemma_lock_fires_exactly_once(e0, t, i);
    lemma_lock_fires_exactly_once(e0, t, j);
    if i < j {
        assert(j * t.poll_interval >= (i + 1) * t.poll_interval) by (nonlinear_arith)
            requires
                j >= i + 1,
                t.poll_interval >= 0,
        ;
    }
    if j < i {
        assert(i * t.poll_interval >= (j + 1) * t.poll_interval) by (nonlinear_arith)
            requires
                i >= j + 1,
                t.poll_interval >= 0,
        ;
    }
}

proof fn lemma_in_range_run_state(e0: ProximityLockEngine, t: Timings, i: nat)
    requires
        e0.locked,
        e0.lock_timer == 0,
        e0.unlock_timer == 0,
        1 <= t.poll_interval,
        t.unlock_hold_seconds + t.poll_interval <= u64::MAX,
    ensures
        i * t.poll_interval < t.unlock_hold_seconds ==> run_in_range_cycles(e0, t, i)
            == (ProximityLockEngine {
            locked: true,
            lock_timer: 0,
            unlock_timer: (i * t.poll_interval) as u64,
        }),
        i >= 1 && i * t.poll_interval >= t.unlock_hold_seconds ==> !run_in_range_cycles(
            e0,
            t,
            i,
        ).locked,
    decreases i,
{
    if i >= 1 {
        let j = (i - 1) as nat;
        lemma_in_range_run_state(e0, t, j);
        assert(j * t.poll_interval == i * t.poll_interval - t.poll_interval)
            by (nonlinear_arith)
            requires
                j == i - 1,
        ;
        assert(j * t.poll_interval >= 0) by (nonlinear_arith)
            requires
                j >= 0,
                t.poll_interval >= 0,
        ;
        let prev = run_in_range_cycles(e0, t, j);
        let cur = run_in_range_cycles(e0, t, i);
        assert(cur == cycle_state(prev, false, true, t, true));
        if i * t.poll_interval < t.unlock_hold_seconds {
            assert(j * t.poll_interval < t.unlock_hold_seconds);
            assert(prev == (ProximityLockEngine { locked: true, lock_timer: 0, unlock_timer: (j * t.poll_interval) as u64 }));
            assert(prev.unlock_timer + t.poll_interval == i * t.poll_interval);
            assert(timers_advanced(prev, false, true, t.poll_interval).unlock_timer
                == i * t.poll_interval);
            assert(cycle_action(prev, false, true, t) == LockAction::Idle);
            assert(cur == (ProximityLockEngine { locked: true, lock_timer: 0, unlock_timer: (i * t.poll_interval) as u64 }));
        } else {
            if j * t.poll_interval < t.unlock_hold_seconds {
                assert(prev == (ProximityLockEngine { locked: true, lock_timer: 0, unlock_timer: (j * t.poll_interval) as u64 }));
                assert(prev.unlock_timer + t.poll_interval == i * t.poll_interval);
                assert(timers_advanced(prev, false, true, t.poll_interval).unlock_timer
                    >= t.unlock_hold_seconds);
                assert(cycle_action(prev, false, true, t) == LockAction::Unlock);
                assert(cur.locked == false);
            } else if j >= 1 {
                assert(!prev.locked);
                assert(cycle_action(prev, false, true, t) != LockAction::Unlock);
                assert(!cur.locked);
            } else {
                assert(j * t.poll_interval == 0) by (nonlinear_arith)
                    requires
                        j == 0,
                ;
                assert(t.unlock_hold_seconds == 0);
                assert(prev == e0);
                assert(cycle_action(prev, false, true, t) == LockAction::Unlock);
                assert(cur.locked == false);
            }
        }
    } else {
        assert(i * t.poll_interval == 0) by (nonlinear_arith)
            requires
                i == 0,
        ;
    }
}

/// Law: symmetric to the lock law. Starting locked with clear timers,
/// over consecutive in-range cycles whose requested actuations succeed,
/// an unlock actuation is asked for at exactly the cycle where the
/// accumulated in-range duration first reaches the unlock hold duration
/// — so after a successful unlock the timer is reset and a further
/// unlock would again need a fresh full hold period.
pub proof fn lemma_unlock_fires_exactly_once(e0: ProximityLockEngine, t: Timings, i: nat)
    requires
        e0.locked,
        e0.lock_timer == 0,
        e0.unlock_timer == 0,
        1 <= t.poll_interval,
        t.unlock_hold_seconds + t.poll_interval <= u64::MAX,
    ensures
        in_range_cycle_fires(e0, t, i) <==> ((i + 1) * t.poll_interval
            >= t.unlock_hold_seconds && (i == 0 || i * t.poll_interval
            < t.unlock_hold_seconds)),
{
    lemma_in_range_run_state(e0, t, i);
    assert(i * t.poll_interval + t.poll_interval == (i + 1) * t.poll_interval)
        by (nonlinear_arith);
    assert(i >= 1 ==> i * t.poll_interval >= t.poll_interval) by (nonlinear_arith)
        requires
            1 <= t.poll_interval,
    ;
}

} // verus!
