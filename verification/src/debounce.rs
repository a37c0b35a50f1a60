//! Collapsing bursts of triggers into a single delayed action.
//!
//! A debouncer holds at most one pending action.  Scheduling cancels
//! whatever was pending and arms the new action, due a full delay after
//! this call; polling fires the pending action once its deadline has
//! passed, and disarms it.  Time is a millisecond count handed in by the
//! caller, so the scheduling decisions stay deterministic and the timers
//! live with the transport.

use vstd::prelude::*;

verus! {

/// At most one pending action, with the time it falls due.
#[derive(Debug, Clone)]
pub struct Debouncer<A> {
    pub pending: Option<(u64, A)>,
}

impl<A> Debouncer<A> {
    pub fn new() -> (d: Debouncer<A>)
        ensures
            d.pending is None,
    {
        Debouncer { pending: None }
    }

    /// Cancels any pending action and schedules `action`, due `delay_ms`
    /// after `now_ms`.
    pub fn debounce(&mut self, now_ms: u64, delay_ms: u64, action: A)
        requires
            now_ms + delay_ms <= u64::MAX,
        ensures
            final(self).pending == Some(((now_ms + delay_ms) as u64, action)),
    {
        self.pending = Some((now_ms + delay_ms, action));
    }

    /// Fires the pending action if its deadline has passed, disarming it;
    /// fires nothing otherwise.
    pub fn poll(&mut self, now_ms: u64) -> (r: Option<A>)
        ensures
            match old(self).pending {
                Some((due, a)) => if now_ms >= due {
                    r == Some(a) && final(self).pending is None
                } else {
                    r is None && final(self).pending == old(self).pending
                },
                None => r is None && final(self).pending is None,
            },
    {
        match self.pending.take() {
            Some((due, a)) => {
                if now_ms >= due {
                    Some(a)
                } else {
                    self.pending = Some((due, a));
                    None
                }
            }
            None => None,
        }
    }
}

// ---------------------------------------------------------------------------
// The coalescing law
// ---------------------------------------------------------------------------

/// What one `debounce` call leaves pending.
pub open spec fn sched_model<A>(now: int, delay: int, action: A) -> Option<(int, A)> {
    Some((now + delay, action))
}

/// The pending slot after a whole burst of calls at `times` with `acts`.
pub open spec fn burst_model<A>(st: Option<(int, A)>, times: Seq<int>, acts: Seq<A>, delay: int) -> Option<(int, A)>
    decreases times.len(),
{
    if times.len() == 0 || acts.len() == 0 {
        st
    } else {
        burst_model(sched_model(times[0], delay, acts[0]), times.skip(1), acts.skip(1), delay)
    }
}

/// What one `poll` call fires out of a pending slot.
pub open spec fn fire_model<A>(st: Option<(int, A)>, now: int) -> Option<A> {
    match st {
        Some((due, a)) => if now >= due { Some(a) } else { None },
        None => None,
    }
}

/// A burst of calls, however many and starting from whatever state, leaves
/// exactly the last action pending, due a full delay after the last call;
/// a poll before that deadline fires nothing, a poll at or after it fires
/// that one action, and an emptied slot fires nothing ever again.  In
/// particular a burst whose calls each land within the delay of the one
/// before admits no firing deadline between its calls, so the burst as a
/// whole fires exactly once.
pub proof fn lemma_debounce_burst<A>(st: Option<(int, A)>, times: Seq<int>, acts: Seq<A>, delay: int, early: int, due: int)
    requires
        times.len() == acts.len(),
        times.len() > 0,
        early < times.last() + delay,
        due >= times.last() + delay,
    ensures
        burst_model(st, times, acts, delay) == Some((times.last() + delay, acts.last())),
        fire_model(burst_model(st, times, acts, delay), early) is None,
        fire_model(burst_model(st, times, acts, delay), due) == Some(acts.last()),
        fire_model(Option::<(int, A)>::None, due) is None,
    decreases times.len(),
{
    if times.len() == 1 {
        assert(burst_model(st, times, acts, delay)
            == burst_model(sched_model(times[0], delay, acts[0]), times.skip(1), acts.skip(1), delay));
    } else {
        lemma_debounce_burst(
            sched_model(times[0], delay, acts[0]),
            times.skip(1),
            acts.skip(1),
            delay,
            early,
            due,
        );
        assert(times.skip(1).last() == times.last());
        assert(acts.skip(1).last() == acts.last());
    }
}

} // verus!
