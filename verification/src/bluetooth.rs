//! The reconnect debouncer: per device, the time of the last connection
//! attempt, and the cooldown rule that suppresses repeated attempts.
//!
//! A device that stopped answering is retried indefinitely, but never
//! faster than once per `reconnect_interval` seconds. A device never
//! attempted before is always eligible. Issuing the actual connection
//! command is I/O and stays outside the library; the caller asks
//! `should_attempt`, records the attempt with `record_attempt`, and only
//! then runs the command.

use vstd::prelude::*;

verus! {

/// The tracker state: one `(device identifier, last attempt time)` entry
/// per device that has ever been attempted. Entries are created on the
/// first attempt, updated on each later one, and never removed; the
/// device set is small and static, so the tracker stays bounded.
pub struct BluetoothManager {
    last_connect_attempts: Vec<(String, u64)>,
}

/// The last recorded attempt time for `mac` among the entries of `s`,
/// the most recent entry winning.
pub open spec fn lookup_attempt(s: Seq<(String, u64)>, mac: Seq<char>) -> Option<u64>
    decreases s.len(),
{
    if s.len() == 0 {
        None
    } else if s.last().0@ == mac {
        Some(s.last().1)
    } else {
        lookup_attempt(s.drop_last(), mac)
    }
}

/// No two entries of `s` carry the same device identifier.
pub open spec fn distinct_keys(s: Seq<(String, u64)>) -> bool {
    forall|i: int, j: int| 0 <= i < j < s.len() ==> s[i].0@ != s[j].0@
}

/// Seconds elapsed from `earlier` to `now`, saturating at zero should
/// the clock ever read backwards.
pub open spec fn saturating_elapsed(earlier: u64, now: u64) -> u64 {
    if now >= earlier {
        (now - earlier) as u64
    } else {
        0
    }
}

/// The cooldown rule: an attempt is eligible when the device was never
/// attempted, or when at least `reconnect_interval` seconds have elapsed
/// since the last attempt.
pub open spec fn spec_should_attempt(
    last: Option<u64>,
    now: u64,
    reconnect_interval: u64,
) -> bool {
    match last {
        None => true,
        Some(t) => saturating_elapsed(t, now) >= reconnect_interval,
    }
}

proof fn lemma_lookup_found(s: Seq<(String, u64)>, mac: Seq<char>, i: int)
    requires
        distinct_keys(s),
        0 <= i < s.len(),
        s[i].0@ == mac,
    ensures
        lookup_attempt(s, mac) == Some(s[i].1),
    decreases s.len(),
{
    if i == s.len() - 1 {
    } else {
        assert(s.last().0@ != mac);
        assert(distinct_keys(s.drop_last()));
        lemma_lookup_found(s.drop_last(), mac, i);
    }
}

proof fn lemma_lookup_absent(s: Seq<(String, u64)>, mac: Seq<char>)
    requires
        forall|i: int| 0 <= i < s.len() ==> s[i].0@ != mac,
    ensures
        lookup_attempt(s, mac) is None,
    decreases s.len(),
{
    if s.len() > 0 {
        lemma_lookup_absent(s.drop_last(), mac);
    }
}

proof fn lemma_lookup_remove_other(s: Seq<(String, u64)>, i: int, other: Seq<char>)
    requires
        0 <= i < s.len(),
        s[i].0@ != other,
    ensures
        lookup_attempt(s.remove(i), other) == lookup_attempt(s, other),
    decreases s.len(),
{
    if i == s.len() - 1 {
        assert(s.remove(i) =~= s.drop_last());
    } else {
        assert(s.remove(i).last() == s.last());
        if s.last().0@ == other {
        } else {
            assert(s.remove(i).drop_last() =~= s.drop_last().remove(i));
            lemma_lookup_remove_other(s.drop_last(), i, other);
        }
    }
}


/// The index of the entry for `key` in `v`, if there is one.
fn find_entry(v: &Vec<(String, u64)>, key: &String) -> (r: Option<usize>)
    ensures
        match r {
            Some(i) => i < v@.len() && v@[i as int].0@ == key@,
            None => forall|j: int| 0 <= j < v@.len() ==> v@[j].0@ != key@,
        },
{
    let n = v.len();
    let mut i: usize = 0;
    while i < n
        invariant
            n == v@.len(),
            i <= n,
            forall|j: int| 0 <= j < i ==> v@[j].0@ != key@,
        decreases n - i,
    {
        if v[i].0 == *key {
            return Some(i);
        }
        i = i + 1;
    }
    None
}

impl BluetoothManager {
    /// The tracker's invariant: one entry per device identifier.
    pub closed spec fn wf(self) -> bool {
        distinct_keys(self.last_connect_attempts@)
    }

    /// The last recorded attempt time for `mac`, or `None` for a device
    /// never attempted.
    pub closed spec fn last_attempt(self, mac: Seq<char>) -> Option<u64> {
        lookup_attempt(self.last_connect_attempts@, mac)
    }

    /// A fresh tracker with no recorded attempt for any device.
    pub fn new() -> (m: Self)
        ensures
            m.wf(),
            forall|mac: Seq<char>| #[trigger] m.last_attempt(mac) is None,
    {
        BluetoothManager { last_connect_attempts: Vec::new() }
    }

    /// Whether a connection attempt for `mac` is eligible at time `now`:
    /// true for a never-attempted device, and otherwise exactly when the
    /// cooldown of `reconnect_interval` seconds has elapsed since the
    /// last recorded attempt.
    pub fn should_attempt(&self, mac: &str, now: u64, reconnect_interval: u64) -> (r: bool)
        requires
            self.wf(),
        ensures
            r == spec_should_attempt(self.last_attempt(mac@), now, reconnect_interval),
    {
        let key: String = mac.to_owned();
        match find_entry(&self.last_connect_attempts, &key) {
            Some(i) => {
                let t = self.last_connect_attempts[i].1;
                proof {
                    lemma_lookup_found(self.last_connect_attempts@, mac@, i as int);
                }
                let elapsed: u64 = if now >= t {
                    now - t
                } else {
                    0
                };
                elapsed >= reconnect_interval
            },
            None => {
                proof {
                    lemma_lookup_absent(self.last_connect_attempts@, mac@);
                }
                true
            },
        }
    }

    /// Record that a connection attempt for `mac` is being issued at
    /// time `now`. The device's entry is created or updated; no other
    /// device's entry changes.
    pub fn record_attempt(&mut self, mac: &str, now: u64)
        requires
            old(self).wf(),
        ensures
            final(self).wf(),
            final(self).last_attempt(mac@) == Some(now),
            forall|other: Seq<char>|
                other != mac@ ==> #[trigger] final(self).last_attempt(other) == old(
                    self,
                ).last_attempt(other),
    {
        let key: String = mac.to_owned();
        let ghost s0 = self.last_connect_attempts@;
        let hit = find_entry(&self.last_connect_attempts, &key);
        if let Some(i) = hit {
            let ghost idx = i as int;
            self.last_connect_attempts.remove(i);
            proof {
                let s1 = self.last_connect_attempts@;
                assert(s1 =~= s0.remove(idx));
                assert forall|j: int, l: int| 0 <= j < l < s1.len() implies s1[j].0@
                    != s1[l].0@ by {
                    if l < idx {
                        assert(s1[j] == s0[j] && s1[l] == s0[l]);
                    } else if j < idx {
                        assert(s1[j] == s0[j] && s1[l] == s0[l + 1]);
                    } else {
                        assert(s1[j] == s0[j + 1] && s1[l] == s0[l + 1]);
                    }
                }
                assert forall|j: int| 0 <= j < s1.len() implies s1[j].0@ != mac@ by {
                    if j < idx {
                        assert(s1[j] == s0[j]);
                    } else {
                        assert(s1[j] == s0[j + 1]);
                    }
                }
            }
        }
        let ghost s2 = self.last_connect_attempts@;
        self.last_connect_attempts.push((key, now));
        proof {
            let s3 = self.last_connect_attempts@;
            assert(s3.len() == s2.len() + 1);
            assert(s3.last().0@ == mac@ && s3.last().1 == now);
            assert(lookup_attempt(s3, mac@) == Some(now));
            assert forall|j: int, l: int| 0 <= j < l < s3.len() implies s3[j].0@ != s3[l].0@ by {
                if l == s3.len() - 1 {
                    assert(s3[j] == s2[j]);
                } else {
                    assert(s3[j] == s2[j] && s3[l] == s2[l]);
                }
            }
            assert forall|other: Seq<char>| other != mac@ implies #[trigger] lookup_attempt(
                s3,
                other,
            ) == lookup_attempt(s0, other) by {
                assert(s3.drop_last() =~= s2);
                if let Some(i) = hit {
                    lemma_lookup_remove_other(s0, i as int, other);
                }
            }
        }
    }
}

/// Law: the debouncer always permits the first attempt for a previously
/// unseen device, whatever the time and interval.
pub proof fn lemma_first_attempt_permitted(
    m: BluetoothManager,
    mac: Seq<char>,
    now: u64,
    reconnect_interval: u64,
)
    requires
        m.last_attempt(mac) is None,
    ensures
        spec_should_attempt(m.last_attempt(mac), now, reconnect_interval),
{
}

/// Law: the debouncer never permits two attempts for the same device
/// within `reconnect_interval` seconds. After an attempt recorded at
/// `attempt_time`, any query strictly inside the cooldown window is
/// refused.
pub proof fn lemma_no_second_attempt_within_interval(
    m: BluetoothManager,
    mac: Seq<char>,
    attempt_time: u64,
    now: u64,
    reconnect_interval: u64,
)
    requires
        m.last_attempt(mac) == Some(attempt_time),
        attempt_time <= now,
        now < attempt_time + reconnect_interval,
    ensures
        !spec_should_attempt(m.last_attempt(mac), now, reconnect_interval),
{
}

} // verus!
