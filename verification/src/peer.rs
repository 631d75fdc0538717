//! The track record of one external peer, and the waiting time that follows
//! from it.

use vstd::prelude::*;
use crate::clock::now_micros;

verus! {

/// The longest waiting time, in seconds.
pub const MAX_PENALTY: u32 = 3600;

/// The longest waiting time, in microseconds.
pub const MAX_PENALTY_MICROS: i64 = 3_600_000_000;

/// How a peer has answered so far. Times are microseconds since the Unix
/// epoch.
#[derive(Clone, Copy, Debug, PartialEq, Eq)]
pub struct ResponsiveRecord {
    /// Failed attempts since the last success.
    pub failed_attempts: u32,
    /// Successful attempts in all.
    pub total_successes: u32,
    /// When the peer was last tried.
    pub last_attempt: i64,
    /// When the peer last answered.
    pub last_success: i64,
}

impl ResponsiveRecord {
    /// The record of a peer first heard of at `now`.
    pub open spec fn spec_fresh(now: i64) -> ResponsiveRecord {
        ResponsiveRecord {
            failed_attempts: 0,
            total_successes: 0,
            last_attempt: now,
            last_success: now,
        }
    }

    /// The waiting time in microseconds: none without a failure, else the
    /// time from the last attempt to the last success, at most the cap.
    pub open spec fn spec_penalty(&self) -> Option<int> {
        if self.failed_attempts == 0 {
            None
        } else if self.last_success - self.last_attempt < MAX_PENALTY_MICROS {
            Some(self.last_success - self.last_attempt)
        } else {
            Some(MAX_PENALTY_MICROS as int)
        }
    }

    /// Whether the waiting time, counted from the last attempt, ends after
    /// `now`.
    pub open spec fn spec_has_penalty_at(&self, now: int) -> bool {
        match self.spec_penalty() {
            None => false,
            Some(p) => self.last_attempt + p > now,
        }
    }

    /// Whether the waiting time ends after the time `now`, given in
    /// microseconds since the Unix epoch.
    pub open spec fn penalized_at(&self, now: i64) -> bool {
        self.spec_has_penalty_at(now as int)
    }

    /// The record after a failed attempt at `now`.
    pub open spec fn spec_punished(&self, now: i64) -> ResponsiveRecord {
        ResponsiveRecord {
            failed_attempts: (self.failed_attempts + 1) as u32,
            total_successes: self.total_successes,
            last_attempt: now,
            last_success: self.last_success,
        }
    }

    /// The record after a successful attempt at `now`.
    pub open spec fn spec_rewarded(&self, now: i64) -> ResponsiveRecord {
        ResponsiveRecord {
            failed_attempts: 0,
            total_successes: (self.total_successes + 1) as u32,
            last_attempt: now,
            last_success: now,
        }
    }

    /// Whether the counter that an attempt raises can still be raised.
    pub open spec fn has_room(&self, success: bool) -> bool {
        if success {
            self.total_successes < u32::MAX
        } else {
            self.failed_attempts < u32::MAX
        }
    }

    pub fn fresh(now: i64) -> (r: ResponsiveRecord)
        ensures
            r == Self::spec_fresh(now),
    {
        ResponsiveRecord { failed_attempts: 0, total_successes: 0, last_attempt: now, last_success: now }
    }

    /// Time to wait before the peer is tried again, in microseconds.
    pub fn penalty(&self) -> (r: Option<i128>)
        ensures
            match r {
                Some(p) => self.spec_penalty() == Some(p as int),
                None => self.spec_penalty().is_none(),
            },
    {
        if self.failed_attempts == 0 {
            return None;
        }
        let gap: i128 = self.last_success as i128 - self.last_attempt as i128;
        if gap < MAX_PENALTY_MICROS as i128 {
            Some(gap)
        } else {
            Some(MAX_PENALTY_MICROS as i128)
        }
    }

    /// Whether the peer is still waiting out its penalty at `now`.
    pub fn has_penalty_at(&self, now: i64) -> (r: bool)
        ensures
            r == self.penalized_at(now),
    {
        match self.penalty() {
            None => false,
            Some(p) => self.last_attempt as i128 + p > now as i128,
        }
    }

    /// Whether the peer is waiting out its penalty now. Whatever the clock
    /// says, a peer without a failure is not.
    pub fn has_penalty(&self) -> (r: bool)
        ensures
            self.failed_attempts == 0 ==> !r,
            exists|now: i64| r == #[trigger] self.penalized_at(now),
    {
        let now = now_micros();
        self.has_penalty_at(now)
    }

    /// Counts a failed attempt made at `now`.
    pub fn punish_at(&mut self, now: i64)
        requires
            old(self).failed_attempts < u32::MAX,
        ensures
            *final(self) == old(self).spec_punished(now),
    {
        self.failed_attempts += 1;
        self.last_attempt = now;
    }

    /// Counts a successful attempt made at `now`.
    pub fn reward_at(&mut self, now: i64)
        requires
            old(self).total_successes < u32::MAX,
        ensures
            *final(self) == old(self).spec_rewarded(now),
    {
        self.total_successes += 1;
        self.failed_attempts = 0;
        self.last_success = now;
        self.last_attempt = now;
    }

    /// Counts a failed attempt made now: one more failure, the successes and
    /// the time of the last success as they were.
    pub fn punish(&mut self)
        requires
            old(self).failed_attempts < u32::MAX,
        ensures
            exists|now: i64| *final(self) == #[trigger] old(self).spec_punished(now),
            final(self).failed_attempts == old(self).failed_attempts + 1,
            final(self).total_successes == old(self).total_successes,
            final(self).last_success == old(self).last_success,
    {
        let now = now_micros();
        self.punish_at(now);
    }

    /// Counts a successful attempt made now: no failures left, one more
    /// success, and both times set to one reading of the clock.
    pub fn reward(&mut self)
        requires
            old(self).total_successes < u32::MAX,
        ensures
            exists|now: i64| *final(self) == #[trigger] old(self).spec_rewarded(now),
            final(self).failed_attempts == 0,
            final(self).total_successes == old(self).total_successes + 1,
            final(self).last_success == final(self).last_attempt,
            final(self).spec_penalty().is_none(),
    {
        let now = now_micros();
        self.reward_at(now);
    }
}

} // verus!
