use vstd::prelude::*;

use vstd::arithmetic::div_mod::{lemma_basic_div, lemma_div_is_ordered_by_denominator};

use crate::controls::ControlEvent;

verus! {

/// Time between two falls at the start of a round: one second, in microseconds.
pub const BASE_INTERVAL_US: u64 = 1_000_000;

/// Time between two falls while the player holds the soft drop.
pub const SPEEDUP_INTERVAL_US: u64 = 30_000;

/// Pieces after which the fall rate has grown by one base rate: the rate is
/// `1 + n / RAMP_PIECES` falls per second after `n` pieces.
pub const RAMP_PIECES: u64 = 50;

/// The longest frame that a timer takes in one step.
pub const MAX_FRAME_US: u64 = u64::MAX - BASE_INTERVAL_US;

/// The fall timer: time gathered towards the next fall, and whether the soft
/// drop is held.
#[derive(Clone, Copy, Debug, PartialEq, Eq, Structural)]
pub struct TickTimer {
    pub elapsed_us: u64,
    pub in_speedup: bool,
}

/// Time between falls after `n` pieces: `BASE_INTERVAL_US / (1 + n / RAMP_PIECES)`,
/// rounded down, and never less than a microsecond.
pub open spec fn base_interval(n: int) -> int {
    let q = (BASE_INTERVAL_US * RAMP_PIECES) as int / (RAMP_PIECES + n);
    if q == 0 {
        1
    } else {
        q
    }
}

/// Time between falls: the soft-drop interval while the soft drop is held,
/// else the interval for the pieces so far.
pub open spec fn current_interval(in_speedup: bool, n: int) -> int {
    if in_speedup {
        SPEEDUP_INTERVAL_US as int
    } else {
        base_interval(n)
    }
}

/// Whether the soft drop is held after the controls `events`, starting from `held`.
pub open spec fn speedup_after(events: Seq<ControlEvent>, held: bool) -> bool
    decreases events.len(),
{
    if events.len() == 0 {
        held
    } else {
        match events.last() {
            ControlEvent::SpeedupStart => true,
            ControlEvent::SpeedupEnd => false,
            _ => speedup_after(events.drop_last(), held),
        }
    }
}

proof fn lemma_interval_bounds(in_speedup: bool, n: int)
    requires
        n >= 0,
    ensures
        1 <= current_interval(in_speedup, n) <= BASE_INTERVAL_US,
{
    lemma_div_is_ordered_by_denominator(
        (BASE_INTERVAL_US * RAMP_PIECES) as int,
        RAMP_PIECES as int,
        RAMP_PIECES + n,
    );
    assert((BASE_INTERVAL_US * RAMP_PIECES) as int / (RAMP_PIECES as int) == BASE_INTERVAL_US);
}

impl TickTimer {
    pub open spec fn wf(&self) -> bool {
        self.elapsed_us < BASE_INTERVAL_US
    }

    /// A timer with nothing gathered and the soft drop released.
    pub fn new() -> (r: TickTimer)
        ensures
            r.wf(),
            r.elapsed_us == 0,
            !r.in_speedup,
    {
        TickTimer { elapsed_us: 0, in_speedup: false }
    }

    /// The current time between falls, after `shapes_spawned` pieces.
    pub fn interval_us(&self, shapes_spawned: u64) -> (r: u64)
        ensures
            r == current_interval(self.in_speedup, shapes_spawned as int),
            1 <= r <= BASE_INTERVAL_US,
    {
        proof {
            lemma_interval_bounds(self.in_speedup, shapes_spawned as int);
        }
        if self.in_speedup {
            return SPEEDUP_INTERVAL_US;
        }
        if shapes_spawned >= BASE_INTERVAL_US * RAMP_PIECES {
            proof {
                lemma_basic_div(
                    (BASE_INTERVAL_US * RAMP_PIECES) as int,
                    RAMP_PIECES + shapes_spawned,
                );
            }
            return 1;
        }
        let q = BASE_INTERVAL_US * RAMP_PIECES / (RAMP_PIECES + shapes_spawned);
        if q == 0 {
            1
        } else {
            q
        }
    }

    /// Holds or releases the soft drop as the controls of one frame say; the
    /// last of them decides.
    pub fn speedup(&mut self, events: &Vec<ControlEvent>)
        ensures
            final(self).in_speedup == speedup_after(events@, old(self).in_speedup),
            final(self).elapsed_us == old(self).elapsed_us,
    {
        let mut i: usize = 0;
        while i < events.len()
            invariant
                0 <= i <= events@.len(),
                self.in_speedup == speedup_after(events@.take(i as int), old(self).in_speedup),
                self.elapsed_us == old(self).elapsed_us,
            decreases events@.len() - i,
        {
            assert(events@.take(i + 1).drop_last() == events@.take(i as int));
            match events[i] {
                ControlEvent::SpeedupStart => self.in_speedup = true,
                ControlEvent::SpeedupEnd => self.in_speedup = false,
                _ => {},
            }
            i += 1;
        }
        assert(events@.take(events@.len() as int) == events@);
    }

    /// Adds a frame of `delta_us` microseconds and returns how many falls are
    /// due: each whole interval gathered is one fall and is taken off, and what
    /// is left is kept for the next frame.
    pub fn tick_system(&mut self, delta_us: u64, shapes_spawned: u64) -> (pulses: u64)
        requires
            old(self).wf(),
            delta_us <= MAX_FRAME_US,
        ensures
            final(self).wf(),
            final(self).in_speedup == old(self).in_speedup,
            pulses == (old(self).elapsed_us + delta_us) / current_interval(
                old(self).in_speedup,
                shapes_spawned as int,
            ),
            final(self).elapsed_us == (old(self).elapsed_us + delta_us) % current_interval(
                old(self).in_speedup,
                shapes_spawned as int,
            ),
    {
        let interval = self.interval_us(shapes_spawned);
        let total = self.elapsed_us + delta_us;
        self.elapsed_us = total % interval;
        total / interval
    }
}

} // verus!
