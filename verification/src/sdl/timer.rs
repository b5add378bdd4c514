//! The link timers as an abstract integer-millisecond service.
//!
//! The runtime never reads a clock. It asks a [`TimerService`] to arm a timer for
//! a number of milliseconds, to cancel it, and to say whether it is running and
//! how much of it remains. An expiry comes back to the session as an event.

use vstd::prelude::*;

verus! {

/// The timers of the data-link machine and of the management machine.
#[derive(Debug, Clone, Copy, PartialEq, Eq, Hash, Structural)]
pub enum TimerId {
    /// T1, the acknowledgement timer.
    T1,
    /// T2, the response-delay timer.
    T2,
    /// T3, the inactive-link timer.
    T3,
    /// TM201, the retry timer of the management data-link machine.
    Tm201,
}

/// Which timers are running, each with its remaining milliseconds.
#[derive(Debug, Clone, Copy, PartialEq, Eq, Structural)]
pub struct TimerSnapshot {
    /// T1 remaining ms, or `None` if it is not running.
    pub t1: Option<u32>,
    /// T2 remaining ms, or `None` if it is not running.
    pub t2: Option<u32>,
    /// T3 remaining ms, or `None` if it is not running.
    pub t3: Option<u32>,
    /// TM201 remaining ms, or `None` if it is not running.
    pub tm201: Option<u32>,
}

impl TimerSnapshot {
    /// The slot of `id`.
    pub open spec fn slot(self, id: TimerId) -> Option<u32> {
        match id {
            TimerId::T1 => self.t1,
            TimerId::T2 => self.t2,
            TimerId::T3 => self.t3,
            TimerId::Tm201 => self.tm201,
        }
    }

    /// The same timers with the slot of `id` replaced.
    pub open spec fn with(self, id: TimerId, slot: Option<u32>) -> TimerSnapshot {
        match id {
            TimerId::T1 => TimerSnapshot { t1: slot, ..self },
            TimerId::T2 => TimerSnapshot { t2: slot, ..self },
            TimerId::T3 => TimerSnapshot { t3: slot, ..self },
            TimerId::Tm201 => TimerSnapshot { tm201: slot, ..self },
        }
    }

    /// What remains of `id`: zero when it is not running.
    pub open spec fn remaining(self, id: TimerId) -> u32 {
        match self.slot(id) {
            Some(ms) => ms,
            None => 0,
        }
    }

    /// No timer is running.
    pub open spec fn idle() -> TimerSnapshot {
        TimerSnapshot { t1: None, t2: None, t3: None, tm201: None }
    }
}

impl Default for TimerSnapshot {
    fn default() -> (s: TimerSnapshot)
        ensures
            s == TimerSnapshot::idle(),
    {
        TimerSnapshot { t1: None, t2: None, t3: None, tm201: None }
    }
}

/// The timer service that the runtime drives. While one event is being
/// processed the readings stand still: only the calls below change them.
pub trait TimerService: Sized {
    /// The running timers and what remains of each.
    spec fn slots(&self) -> TimerSnapshot;

    /// Arms or re-arms `id` to expire after `duration_ms`.
    fn arm(&mut self, id: TimerId, duration_ms: u32)
        ensures
            final(self).slots() == old(self).slots().with(id, Some(duration_ms)),
    ;

    /// Cancels `id` if it is running.
    fn cancel(&mut self, id: TimerId)
        ensures
            final(self).slots() == old(self).slots().with(id, None),
    ;

    /// Whether `id` is armed.
    fn is_running(&self, id: TimerId) -> (r: bool)
        ensures
            r == (self.slots().slot(id) is Some),
    ;

    /// Remaining ms on `id`, or `0` if it is not running.
    fn time_remaining_ms(&self, id: TimerId) -> (r: u32)
        ensures
            r == self.slots().remaining(id),
    ;

    /// Captures the running timers.
    fn capture(&self) -> (s: TimerSnapshot)
        ensures
            s == self.slots(),
    ;

    /// Restores timers captured earlier.
    fn restore(&mut self, snap: TimerSnapshot)
        ensures
            final(self).slots() == snap,
    ;
}

/// The lesser of an unbounded value and the greatest `u32`.
pub open spec fn saturated(v: int) -> u32 {
    if v > u32::MAX {
        u32::MAX
    } else {
        v as u32
    }
}

/// `v` times `by`, or the greatest `u32` where the product does not fit.
pub fn scaled(v: u32, by: u32) -> (r: u32)
    ensures
        r == saturated(v * by),
{
    assert(v as u64 * by as u64 <= 0xffff_ffff * 0xffff_ffff) by (nonlinear_arith)
        requires
            v <= 0xffff_ffff,
            by <= 0xffff_ffff,
    ;
    let product: u64 = (v as u64) * (by as u64);
    if product > 0xffff_ffff {
        u32::MAX
    } else {
        product as u32
    }
}

/// The smoothed round-trip time after one sample: seven eighths of the old value
/// plus one eighth of the elapsed part of T1. Under Karn's rule a T1 that was not
/// stopped by an acknowledgement gives no sample and changes nothing.
pub open spec fn smoothed_srt(srt_ms: u32, t1v_ms: u32, remaining_ms: u32, karn: bool) -> u32 {
    let sample: int = if t1v_ms >= remaining_ms {
        t1v_ms - remaining_ms
    } else {
        0
    };
    if karn && remaining_ms == 0 {
        srt_ms
    } else {
        saturated((saturated(srt_ms * 7) as int) / 8 + sample / 8)
    }
}

/// The smoothed round-trip update of `Select_T1_Value` in integer milliseconds.
/// `t1v_ms` is what T1 was armed for and `remaining_ms` what was left when it was
/// stopped.
pub fn srt_iir_update(srt_ms: u32, t1v_ms: u32, remaining_ms: u32, karn: bool) -> (r: u32)
    ensures
        r == smoothed_srt(srt_ms, t1v_ms, remaining_ms, karn),
{
    let sample: u32 = t1v_ms.saturating_sub(remaining_ms);
    if karn && remaining_ms == 0 {
        return srt_ms;
    }
    (scaled(srt_ms, 7) / 8).saturating_add(sample / 8)
}

/// A quarter of a second per retry plus twice the round-trip time.
pub open spec fn backed_off_t1(rc: u32, srt_ms: u32) -> u32 {
    saturated(saturated(rc * 250) + saturated(srt_ms * 2))
}

/// `Next T1 := (RC * 0.25) + SRT * 2` in integer milliseconds.
pub fn next_t1_rc_backoff_ms(rc: u32, srt_ms: u32) -> (r: u32)
    ensures
        r == backed_off_t1(rc, srt_ms),
{
    scaled(rc, 250).saturating_add(scaled(srt_ms, 2))
}

/// A timer service without a clock: the timers stand where the last call put
/// them, and the owner posts expiry events itself.
#[derive(Debug, Clone, Copy)]
pub struct MockTimerService {
    t1: Option<u32>,
    t2: Option<u32>,
    t3: Option<u32>,
    tm201: Option<u32>,
}

impl Default for MockTimerService {
    fn default() -> (s: MockTimerService)
        ensures
            s.slots() == TimerSnapshot::idle(),
    {
        MockTimerService { t1: None, t2: None, t3: None, tm201: None }
    }
}

impl MockTimerService {
    /// A service with no timer armed.
    pub fn new() -> (s: MockTimerService)
        ensures
            s.slots() == TimerSnapshot::idle(),
    {
        MockTimerService { t1: None, t2: None, t3: None, tm201: None }
    }

    fn slot(&self, id: TimerId) -> (r: Option<u32>)
        ensures
            r == self.slots().slot(id),
    {
        match id {
            TimerId::T1 => self.t1,
            TimerId::T2 => self.t2,
            TimerId::T3 => self.t3,
            TimerId::Tm201 => self.tm201,
        }
    }

    fn put(&mut self, id: TimerId, slot: Option<u32>)
        ensures
            final(self).slots() == old(self).slots().with(id, slot),
    {
        match id {
            TimerId::T1 => self.t1 = slot,
            TimerId::T2 => self.t2 = slot,
            TimerId::T3 => self.t3 = slot,
            TimerId::Tm201 => self.tm201 = slot,
        }
    }

    /// Moves a running timer's remaining time, to stand for elapsed time. A timer
    /// that is not running stays stopped.
    pub fn set_remaining(&mut self, id: TimerId, remaining_ms: u32)
        ensures
            final(self).slots() == if old(self).slots().slot(id) is Some {
                old(self).slots().with(id, Some(remaining_ms))
            } else {
                old(self).slots()
            },
    {
        if self.slot(id).is_some() {
            self.put(id, Some(remaining_ms));
        }
    }
}

impl TimerService for MockTimerService {
    closed spec fn slots(&self) -> TimerSnapshot {
        TimerSnapshot { t1: self.t1, t2: self.t2, t3: self.t3, tm201: self.tm201 }
    }

    fn arm(&mut self, id: TimerId, duration_ms: u32) {
        self.put(id, Some(duration_ms));
    }

    fn cancel(&mut self, id: TimerId) {
        self.put(id, None);
    }

    fn is_running(&self, id: TimerId) -> (r: bool) {
        self.slot(id).is_some()
    }

    fn time_remaining_ms(&self, id: TimerId) -> (r: u32) {
        match self.slot(id) {
            Some(ms) => ms,
            None => 0,
        }
    }

    fn capture(&self) -> (s: TimerSnapshot) {
        TimerSnapshot { t1: self.t1, t2: self.t2, t3: self.t3, tm201: self.tm201 }
    }

    fn restore(&mut self, snap: TimerSnapshot) {
        self.t1 = snap.t1;
        self.t2 = snap.t2;
        self.t3 = snap.t3;
        self.tm201 = snap.tm201;
    }
}

/// Arming or cancelling a timer touches no other, and putting it back as it was undoes
/// it.
pub proof fn law_restore_undoes_arming(before: TimerSnapshot, id: TimerId, slot: Option<u32>)
    ensures
        before.with(id, slot).with(id, before.slot(id)) == before,
        before.with(id, slot).slot(id) == slot,
        forall|other: TimerId| other != id ==> #[trigger] before.with(id, slot).slot(other)
            == before.slot(other),
{
}

/// Karn's rule: a timed-out T1 never moves the smoothed round-trip time.
pub proof fn law_karn_ignores_timeouts(srt_ms: u32, t1v_ms: u32)
    ensures
        smoothed_srt(srt_ms, t1v_ms, 0, true) == srt_ms,
{
}

/// Smoothing keeps the estimate between the old value and the sample, but for one
/// millisecond that the two integer divisions may lose.
pub proof fn law_smoothing_is_bounded(srt_ms: u32, t1v_ms: u32, remaining_ms: u32, karn: bool)
    requires
        srt_ms * 7 <= u32::MAX,
        remaining_ms <= t1v_ms,
    ensures
        ({
            let sample: int = t1v_ms - remaining_ms;
            let lesser: int = if sample < srt_ms {
                sample
            } else {
                srt_ms as int
            };
            let greater: int = if sample > srt_ms {
                sample
            } else {
                srt_ms as int
            };
            lesser - 1 <= smoothed_srt(srt_ms, t1v_ms, remaining_ms, karn) <= greater
        }),
{
}

/// A new sample weighs one eighth and the old value seven, but for the two milliseconds that
/// the integer divisions may lose.
pub proof fn law_a_sample_weighs_one_eighth(srt_ms: u32, t1v_ms: u32, remaining_ms: u32)
    requires
        srt_ms * 7 <= u32::MAX,
        0 < remaining_ms <= t1v_ms,
    ensures
        ({
            let exact: int = 7 * srt_ms + (t1v_ms - remaining_ms);
            let smoothed: u32 = smoothed_srt(srt_ms, t1v_ms, remaining_ms, true);
            &&& smoothed_srt(srt_ms, t1v_ms, remaining_ms, false) == smoothed
            &&& 8 * smoothed <= exact < 8 * smoothed + 16
        }),
{
}

/// Each retry adds a quarter of a second to T1, which starts at twice the round-trip time.
pub proof fn law_each_retry_adds_a_quarter_of_a_second(rc: u32, srt_ms: u32)
    requires
        (rc + 1) * 250 + srt_ms * 2 <= u32::MAX,
    ensures
        backed_off_t1(0, srt_ms) == 2 * srt_ms,
        backed_off_t1((rc + 1) as u32, srt_ms) == backed_off_t1(rc, srt_ms) + 250,
{
}

} // verus!
