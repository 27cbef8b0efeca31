//! A repeating cooldown counted in milliseconds.

use vstd::prelude::*;

verus! {

/// A repeating timer: `elapsed` milliseconds of the current period of
/// `period` milliseconds have passed.
#[derive(Clone, Copy, Debug, PartialEq, Eq, Structural)]
pub struct Cooldown {
    pub elapsed: u32,
    pub period: u32,
}

/// Advances a repeating engine timer and reads it back.
///
/// Builds a repeating `bevy::core::Timer` of `period` milliseconds with
/// `Timer::new`, sets what has passed of it with `Timer::set_elapsed`, calls
/// `Timer::tick` with `delta` milliseconds, and returns `Timer::elapsed` in
/// milliseconds and `Timer::times_finished`. The contract restates what
/// `tick` does to a repeating timer that is not paused: the time that has
/// passed grows by `delta`; the number of whole periods in it is the count,
/// and what is left of it stays as the time passed. A period of zero is left
/// out, since `tick` would divide by it.
#[verifier::external_body]
fn engine_tick(period: u32, elapsed: u32, delta: u32) -> (r: (u32, u32))
    requires
        period > 0,
        elapsed < period,
    ensures
        r.0 == (elapsed + delta) % (period as int),
        r.1 == (elapsed + delta) / (period as int),
{
    let mut timer = bevy::core::Timer::new(bevy::utils::Duration::from_millis(period as u64), true);
    timer.set_elapsed(bevy::utils::Duration::from_millis(elapsed as u64));
    timer.tick(bevy::utils::Duration::from_millis(delta as u64));
    (timer.elapsed().as_millis() as u32, timer.times_finished())
}

impl Cooldown {
    /// The period is not zero and the time passed lies within it.
    pub open spec fn wf(self) -> bool {
        self.period > 0 && self.elapsed < self.period
    }

    /// Whether at least one period ends within the next `delta`
    /// milliseconds. A cooldown that is not well formed never fires.
    pub open spec fn fires(self, delta: u32) -> bool {
        self.wf() && self.elapsed + delta >= self.period
    }

    /// The cooldown after `delta` more milliseconds: whole periods are
    /// dropped from the time passed. A cooldown that is not well formed
    /// stays as it is.
    pub open spec fn advanced(self, delta: u32) -> Cooldown {
        if self.wf() {
            Cooldown {
                elapsed: ((self.elapsed + delta) % (self.period as int)) as u32,
                period: self.period,
            }
        } else {
            self
        }
    }

    /// Whether the period is not zero and the time passed lies within it.
    pub fn is_valid(&self) -> (r: bool)
        ensures
            r == self.wf(),
    {
        self.period > 0 && self.elapsed < self.period
    }

    /// A cooldown of `period` milliseconds of which nothing has passed, or
    /// `None` for a period of zero.
    pub fn new(period: u32) -> (r: Option<Cooldown>)
        ensures
            period == 0 ==> r is None,
            period > 0 ==> r == Some(Cooldown { elapsed: 0, period }),
            r matches Some(c) ==> c.wf(),
    {
        if period == 0 {
            None
        } else {
            Some(Cooldown { elapsed: 0, period })
        }
    }

    /// Lets `delta` milliseconds pass and says whether a period ended in
    /// them.
    pub fn tick(&mut self, delta: u32) -> (fired: bool)
        ensures
            *final(self) == old(self).advanced(delta),
            fired == old(self).fires(delta),
            old(self).wf() ==> final(self).wf(),
    {
        if !self.is_valid() {
            return false;
        }
        let (rest, times) = engine_tick(self.period, self.elapsed, delta);
        proof {
            let total = self.elapsed + delta;
            let period = self.period as int;
            vstd::arithmetic::div_mod::lemma_mod_bound(total, period);
            if total < period {
                vstd::arithmetic::div_mod::lemma_basic_div(total, period);
            } else {
                vstd::arithmetic::div_mod::lemma_div_non_zero(total, period);
            }
        }
        self.elapsed = rest;
        times > 0
    }
}

} // verus!
