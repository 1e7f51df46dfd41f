use vstd::prelude::*;

use crate::config::Config;
use crate::consts::{MAX_ITERATIONS, SLEEP_TIME};

verus! {

/// The three kinds of cycle the timer moves through.
#[derive(Debug, Clone, Copy, PartialEq, Eq, Structural)]
pub enum CycleType {
    Work,
    ShortBreak,
    LongBreak,
}

/// Slot in the duration table that a cycle type selects.
pub open spec fn cycle_index_spec(cycle: CycleType) -> int {
    match cycle {
        CycleType::Work => 0,
        CycleType::ShortBreak => 1,
        CycleType::LongBreak => 2,
    }
}

/// The cycle type that a table index classifies.
pub open spec fn cycle_of_index(i: int) -> CycleType {
    if i == 0 {
        CycleType::Work
    } else if i == 1 {
        CycleType::ShortBreak
    } else {
        CycleType::LongBreak
    }
}

/// A duration adjustment clamped into the range a `u16` duration can hold.
pub open spec fn clamp_duration(v: int) -> u16 {
    if v < 0 {
        0u16
    } else if v > 0xffff {
        0xffffu16
    } else {
        v as u16
    }
}

/// The engine state of the Pomodoro timer.
///
/// `current_index` selects the active cycle: 0 is work, 1 the short break,
/// 2 the long break. `times` holds the configured duration of each cycle in
/// seconds. `current_override` replaces the active cycle's duration for that
/// cycle only and is cleared on the next transition.
#[derive(Debug, Clone, Copy, PartialEq)]
#[verifier::ext_equal]
pub struct Timer {
    pub current_index: usize,
    pub elapsed_millis: u16,
    pub elapsed_time: u16,
    pub times: [u16; 3],
    pub iterations: u8,
    pub session_completed: u8,
    pub running: bool,
    pub socket_nr: i32,
    pub current_override: Option<u16>,
}

impl Timer {
    /// Duration of the active cycle, honouring a one-shot override.
    pub open spec fn effective_spec(self) -> u16 {
        match self.current_override {
            Some(v) => v,
            None => self.times@[self.current_index as int],
        }
    }

    /// Well-formedness: the index is in range, the sub-second accumulator is
    /// below one second, elapsed time never passes the effective duration,
    /// and the iteration count matches what the cycle progression can reach.
    pub open spec fn wf(self) -> bool {
        &&& self.current_index < 3
        &&& self.elapsed_millis < 1000
        &&& self.elapsed_time <= self.effective_spec()
        &&& (self.current_index == 0 ==> self.iterations < MAX_ITERATIONS)
        &&& (self.current_index == 1 ==> self.iterations + 2 <= MAX_ITERATIONS)
        &&& (self.current_index == 2 ==> self.iterations == MAX_ITERATIONS)
    }

    /// The transition rule fires exactly when the active cycle is complete.
    pub open spec fn fires(self) -> bool {
        self.elapsed_time == self.effective_spec()
    }

    /// State after the transition rule fires: the override is cleared, the
    /// next cycle is chosen, elapsed time restarts, and the timer keeps
    /// running only if the matching auto-continue flag is set.
    pub open spec fn transitioned(self, autow: bool, autob: bool) -> Timer {
        let ni: int = if self.current_index == 0 && self.iterations == MAX_ITERATIONS - 1 {
            2
        } else if self.current_index == 2 && self.iterations == MAX_ITERATIONS {
            0
        } else {
            (self.current_index as int + 1) % 2
        };
        let nit: u8 = if self.current_index == 0 && self.iterations == MAX_ITERATIONS - 1 {
            MAX_ITERATIONS
        } else if self.current_index == 2 && self.iterations == MAX_ITERATIONS {
            0u8
        } else if ni == 0 {
            ((self.iterations + 1) as u8)
        } else {
            self.iterations
        };
        let nsc: u8 = if self.current_index == 2 && self.iterations == MAX_ITERATIONS {
            if self.session_completed < 255 {
                ((self.session_completed + 1) as u8)
            } else {
                255u8
            }
        } else {
            self.session_completed
        };
        Timer {
            current_index: ni as usize,
            elapsed_millis: self.elapsed_millis,
            elapsed_time: 0,
            times: self.times,
            iterations: nit,
            session_completed: nsc,
            running: (autob && ni != 0) || (autow && ni == 0),
            socket_nr: self.socket_nr,
            current_override: None,
        }
    }

    /// State after one tick advances the clock: the sub-second accumulator
    /// gains one tick; when it reaches a second it empties and a second is
    /// added to the elapsed time, which never passes the effective duration.
    pub open spec fn ticked(self) -> Timer {
        if self.elapsed_millis + SLEEP_TIME >= 1000 {
            Timer {
                elapsed_millis: 0,
                elapsed_time: if self.elapsed_time < self.effective_spec() {
                    ((self.elapsed_time + 1) as u16)
                } else {
                    self.elapsed_time
                },
                ..self
            }
        } else {
            Timer { elapsed_millis: ((self.elapsed_millis + SLEEP_TIME) as u16), ..self }
        }
    }

    /// State after skipping to the end of the active cycle and transitioning.
    pub open spec fn skipped(self, autow: bool, autob: bool) -> Timer {
        (Timer {
            elapsed_time: self.effective_spec(),
            elapsed_millis: 0,
            ..self
        }).transitioned(autow, autob)
    }

    pub fn new(work_time: u16, short_break: u16, long_break: u16, socket_nr: i32) -> (t: Timer)
        ensures
            t == (Timer {
                current_index: 0usize,
                elapsed_millis: 0u16,
                elapsed_time: 0u16,
                times: [work_time, short_break, long_break],
                iterations: 0u8,
                session_completed: 0u8,
                running: false,
                socket_nr: socket_nr,
                current_override: None::<u16>,
            }),
            t.wf(),
    {
        Timer {
            current_index: 0,
            elapsed_millis: 0,
            elapsed_time: 0,
            times: [work_time, short_break, long_break],
            iterations: 0,
            session_completed: 0,
            running: false,
            socket_nr,
            current_override: None,
        }
    }

    /// Return to a paused work cycle with all progress cleared; configured
    /// durations and the completed-session count stay.
    pub fn reset(&mut self)
        ensures
            *final(self) == (Timer {
                current_index: 0usize,
                elapsed_millis: 0u16,
                elapsed_time: 0u16,
                iterations: 0u8,
                running: false,
                current_override: None::<u16>,
                ..*old(self)
            }),
            final(self).wf(),
    {
        self.current_index = 0;
        self.elapsed_time = 0;
        self.elapsed_millis = 0;
        self.iterations = 0;
        self.running = false;
        self.current_override = None;
        proof {
            assert(*self =~= (Timer {
                current_index: 0usize,
                elapsed_millis: 0u16,
                elapsed_time: 0u16,
                iterations: 0u8,
                running: false,
                current_override: None::<u16>,
                ..*old(self)
            }));
        }
    }

    pub fn is_break(&self) -> (r: bool)
        ensures
            r == (self.current_index != 0),
    {
        self.current_index != 0
    }

    fn write_time(&mut self, index: usize, v: u16)
        requires
            index < 3,
        ensures
            *final(self) == (Timer { times: final(self).times, ..*old(self) }),
            final(self).times@ == old(self).times@.update(index as int, v),
    {
        let t0 = if index == 0 { v } else { self.times[0] };
        let t1 = if index == 1 { v } else { self.times[1] };
        let t2 = if index == 2 { v } else { self.times[2] };
        self.times = [t0, t1, t2];
        proof {
            assert(self.times@ =~= old(self).times@.update(index as int, v));
            assert(*self =~= (Timer { times: self.times, ..*old(self) }));
        }
    }

    /// Overwrite one base duration with `input` minutes and restart the whole
    /// cycle from a paused work state.
    pub fn set_time(&mut self, cycle: CycleType, input: u16)
        requires
            input * 60 <= u16::MAX,
        ensures
            *final(self) == (Timer {
                current_index: 0usize,
                elapsed_millis: 0u16,
                elapsed_time: 0u16,
                iterations: 0u8,
                running: false,
                current_override: None::<u16>,
                times: final(self).times,
                ..*old(self)
            }),
            final(self).times@ == old(self).times@.update(cycle_index_spec(cycle), (input * 60) as u16),
            final(self).wf(),
    {
        self.reset();
        let index: usize = match cycle {
            CycleType::Work => 0,
            CycleType::ShortBreak => 1,
            CycleType::LongBreak => 2,
        };
        self.write_time(index, input * 60);
        proof {
            assert(*self =~= (Timer {
                current_index: 0usize,
                elapsed_millis: 0u16,
                elapsed_time: 0u16,
                iterations: 0u8,
                running: false,
                current_override: None::<u16>,
                times: final(self).times,
                ..*old(self)
            }));
        }
    }

    /// Adjust one base duration by `delta` minutes, clamped so it never goes
    /// below zero. When the active cycle's own duration drops to or below the
    /// elapsed time, the elapsed time is pulled forward to the new duration so
    /// the next tick fires the transition instead of leaving the timer in an
    /// inconsistent state.
    pub fn add_delta_time(&mut self, cycle: CycleType, delta: i16)
        requires
            old(self).wf(),
        ensures
            final(self).wf(),
            ({
                let i = cycle_index_spec(cycle);
                let nt = clamp_duration(old(self).times@[i] + delta * 60);
                let ff = i == old(self).current_index && old(self).current_override is None
                    && nt <= old(self).elapsed_time;
                &&& final(self).times@ == old(self).times@.update(i, nt)
                &&& *final(self) == (Timer {
                    times: final(self).times,
                    elapsed_time: if ff { nt } else { old(self).elapsed_time },
                    elapsed_millis: if ff { 0u16 } else { old(self).elapsed_millis },
                    ..*old(self)
                })
            }),
    {
        let index: usize = match cycle {
            CycleType::Work => 0,
            CycleType::ShortBreak => 1,
            CycleType::LongBreak => 2,
        };
        let sum: i32 = self.times[index] as i32 + (delta as i32) * 60;
        let nt: u16 = if sum < 0 {
            0
        } else if sum > 0xffff {
            0xffff
        } else {
            sum as u16
        };
        let fast_forward = index == self.current_index && self.current_override.is_none()
            && nt <= self.elapsed_time;
        self.write_time(index, nt);
        if fast_forward {
            self.elapsed_time = nt;
            self.elapsed_millis = 0;
        }
        proof {
            let i = cycle_index_spec(cycle);
            let ntg = clamp_duration(old(self).times@[i] + delta * 60);
            let ff = i == old(self).current_index && old(self).current_override is None
                && ntg <= old(self).elapsed_time;
            assert(*self =~= (Timer {
                times: final(self).times,
                elapsed_time: if ff { ntg } else { old(self).elapsed_time },
                elapsed_millis: if ff { 0u16 } else { old(self).elapsed_millis },
                ..*old(self)
            }));
        }
    }

    /// Replace the active cycle's duration for this cycle only; elapsed time
    /// is clamped down if it now passes the new duration.
    pub fn set_current_duration(&mut self, minutes: u16)
        requires
            old(self).wf(),
            minutes * 60 <= u16::MAX,
        ensures
            final(self).wf(),
            ({
                let nd = ((minutes * 60) as u16);
                let clip = old(self).elapsed_time > nd;
                *final(self) == (Timer {
                    current_override: Some(nd),
                    elapsed_time: if clip { nd } else { old(self).elapsed_time },
                    elapsed_millis: if clip { 0u16 } else { old(self).elapsed_millis },
                    ..*old(self)
                })
            }),
    {
        let nd: u16 = minutes * 60;
        self.current_override = Some(nd);
        if self.elapsed_time > nd {
            self.elapsed_time = nd;
            self.elapsed_millis = 0;
        }
        proof {
            let nd2 = ((minutes * 60) as u16);
            let clip = old(self).elapsed_time > nd2;
            assert(*self =~= (Timer {
                current_override: Some(nd2),
                elapsed_time: if clip { nd2 } else { old(self).elapsed_time },
                elapsed_millis: if clip { 0u16 } else { old(self).elapsed_millis },
                ..*old(self)
            }));
        }
    }

    /// Adjust the active cycle's effective duration by `delta` minutes,
    /// clamped so it never goes below zero, leaving the base durations alone;
    /// elapsed time is clamped down if it now passes the new duration.
    pub fn add_current_delta_time(&mut self, delta: i16)
        requires
            old(self).wf(),
        ensures
            final(self).wf(),
            ({
                let nt = clamp_duration(old(self).effective_spec() + delta * 60);
                let clip = old(self).elapsed_time > nt;
                *final(self) == (Timer {
                    current_override: Some(nt),
                    elapsed_time: if clip { nt } else { old(self).elapsed_time },
                    elapsed_millis: if clip { 0u16 } else { old(self).elapsed_millis },
                    ..*old(self)
                })
            }),
    {
        let cur: u16 = self.get_current_time();
        let sum: i32 = cur as i32 + (delta as i32) * 60;
        let nt: u16 = if sum < 0 {
            0
        } else if sum > 0xffff {
            0xffff
        } else {
            sum as u16
        };
        self.current_override = Some(nt);
        if self.elapsed_time > nt {
            self.elapsed_time = nt;
            self.elapsed_millis = 0;
        }
        proof {
            let ntg = clamp_duration(old(self).effective_spec() + delta * 60);
            let clip = old(self).elapsed_time > ntg;
            assert(*self =~= (Timer {
                current_override: Some(ntg),
                elapsed_time: if clip { ntg } else { old(self).elapsed_time },
                elapsed_millis: if clip { 0u16 } else { old(self).elapsed_millis },
                ..*old(self)
            }));
        }
    }

    /// Display-state classifier: untouched, paused, working, or on a break.
    pub open spec fn class_spec(self) -> Seq<char> {
        if self.elapsed_millis == 0 && self.elapsed_time == 0 && self.iterations == 0
            && self.session_completed == 0 {
            ""@
        } else if !self.running {
            "pause"@
        } else if self.current_index == 0 {
            "work"@
        } else {
            "break"@
        }
    }

    pub fn get_class(&self) -> (r: &'static str)
        ensures
            r@ == self.class_spec(),
    {
        if self.elapsed_millis == 0 && self.elapsed_time == 0 && self.iterations == 0
            && self.session_completed == 0 {
            ""
        } else if !self.running {
            "pause"
        } else if !self.is_break() {
            "work"
        } else {
            "break"
        }
    }

    /// Fire the transition rule if the active cycle is complete. Returns the
    /// cycle type to announce when a transition happened on the notifying
    /// instance (socket 0), and `None` otherwise.
    pub fn update_state(&mut self, config: &Config) -> (r: Option<CycleType>)
        requires
            old(self).wf(),
        ensures
            final(self).wf(),
            *final(self) == (if old(self).fires() {
                old(self).transitioned(config.autow, config.autob)
            } else {
                *old(self)
            }),
            r == (if old(self).fires() && old(self).socket_nr == 0 {
                Some(cycle_of_index(old(self).transitioned(config.autow, config.autob).current_index as int))
            } else {
                None::<CycleType>
            }),
    {
        if self.elapsed_time == self.get_current_time() {
            self.current_override = None;
            if self.current_index == 0 && self.iterations == MAX_ITERATIONS - 1 {
                self.current_index = 2;
                self.iterations = MAX_ITERATIONS;
            } else if self.current_index == 2 && self.iterations == MAX_ITERATIONS {
                self.current_index = 0;
                self.iterations = 0;
                if self.session_completed < 255 {
                    self.session_completed = self.session_completed + 1;
                }
            } else {
                self.current_index = (self.current_index + 1) % 2;
                if self.current_index == 0 {
                    self.iterations = self.iterations + 1;
                }
            }
            self.elapsed_time = 0;
            self.running = (config.autob && self.is_break()) || (config.autow && !self.is_break());
            proof {
                assert(*self =~= old(self).transitioned(config.autow, config.autob));
            }
            if self.socket_nr == 0 {
                Some(
                    if self.current_index == 0 {
                        CycleType::Work
                    } else if self.current_index == 1 {
                        CycleType::ShortBreak
                    } else {
                        CycleType::LongBreak
                    },
                )
            } else {
                None
            }
        } else {
            None
        }
    }

    /// Effective duration of the active cycle, in seconds.
    pub fn get_current_time(&self) -> (r: u16)
        requires
            self.current_index < 3,
        ensures
            r == self.effective_spec(),
    {
        match self.current_override {
            Some(v) => v,
            None => self.times[self.current_index],
        }
    }

    /// Advance the clock by one tick.
    pub fn increment_time(&mut self)
        requires
            old(self).wf(),
        ensures
            final(self).wf(),
            *final(self) == old(self).ticked(),
    {
        if self.elapsed_millis + SLEEP_TIME >= 1000 {
            self.elapsed_millis = 0;
            if self.elapsed_time < self.get_current_time() {
                self.elapsed_time = self.elapsed_time + 1;
            }
        } else {
            self.elapsed_millis = self.elapsed_millis + SLEEP_TIME;
        }
        proof {
            assert(*self =~= old(self).ticked());
        }
    }

    /// Whether this state satisfies the engine's invariant.
    pub fn check_wf(&self) -> (r: bool)
        ensures
            r == self.wf(),
    {
        self.current_index < 3 && self.elapsed_millis < 1000 && self.elapsed_time
            <= self.get_current_time() && (self.current_index != 0 || self.iterations
            < MAX_ITERATIONS) && (self.current_index != 1 || self.iterations <= MAX_ITERATIONS - 2)
            && (self.current_index != 2 || self.iterations == MAX_ITERATIONS)
    }

    /// Skip to the end of the active cycle and fire the transition rule.
    /// Returns the cycle type to announce, as `update_state` does.
    pub fn next_state(&mut self, config: &Config) -> (r: Option<CycleType>)
        requires
            old(self).wf(),
        ensures
            final(self).wf(),
            *final(self) == old(self).skipped(config.autow, config.autob),
            r == (if old(self).socket_nr == 0 {
                Some(cycle_of_index(old(self).skipped(config.autow, config.autob).current_index as int))
            } else {
                None::<CycleType>
            }),
    {
        self.elapsed_time = self.get_current_time();
        self.elapsed_millis = 0;
        self.update_state(config)
    }
}

/// The timer after `n` ticks of the clock.
pub open spec fn ticked_n(t: Timer, n: nat) -> Timer
    decreases n,
{
    if n == 0 {
        t
    } else {
        ticked_n(t, (n - 1) as nat).ticked()
    }
}

proof fn lemma_ticked_n_add(t: Timer, a: nat, b: nat)
    ensures
        ticked_n(t, a + b) == ticked_n(ticked_n(t, a), b),
    decreases b,
{
    if b > 0 {
        lemma_ticked_n_add(t, a, (b - 1) as nat);
    }
}

/// Ten ticks from a whole second add exactly one second to a cycle that is
/// not yet complete.
proof fn lemma_ten_ticks(t: Timer)
    requires
        t.elapsed_millis == 0,
        t.elapsed_time < t.effective_spec(),
    ensures
        ticked_n(t, 10) == (Timer { elapsed_time: ((t.elapsed_time + 1) as u16), ..t }),
{
    let t1 = ticked_n(t, 1);
    let t2 = ticked_n(t, 2);
    let t3 = ticked_n(t, 3);
    let t4 = ticked_n(t, 4);
    let t5 = ticked_n(t, 5);
    let t6 = ticked_n(t, 6);
    let t7 = ticked_n(t, 7);
    let t8 = ticked_n(t, 8);
    let t9 = ticked_n(t, 9);
    assert(ticked_n(t, 0) == t);
    assert(t1 =~= (Timer { elapsed_millis: 100u16, ..t }));
    assert(t2 =~= (Timer { elapsed_millis: 200u16, ..t }));
    assert(t3 =~= (Timer { elapsed_millis: 300u16, ..t }));
    assert(t4 =~= (Timer { elapsed_millis: 400u16, ..t }));
    assert(t5 =~= (Timer { elapsed_millis: 500u16, ..t }));
    assert(t6 =~= (Timer { elapsed_millis: 600u16, ..t }));
    assert(t7 =~= (Timer { elapsed_millis: 700u16, ..t }));
    assert(t8 =~= (Timer { elapsed_millis: 800u16, ..t }));
    assert(t9 =~= (Timer { elapsed_millis: 900u16, ..t }));
    assert(ticked_n(t, 10) == t9.ticked());
    assert(t9.ticked() =~= (Timer { elapsed_time: ((t.elapsed_time + 1) as u16), ..t }));
}

/// Ticking from a whole second until the cycle is complete lands exactly on
/// the effective duration with an empty sub-second accumulator.
proof fn lemma_ticks_complete(t: Timer)
    requires
        t.elapsed_millis == 0,
        t.elapsed_time <= t.effective_spec(),
    ensures
        ticked_n(t, (10 * (t.effective_spec() - t.elapsed_time)) as nat) == (Timer {
            elapsed_time: t.effective_spec(),
            elapsed_millis: 0u16,
            ..t
        }),
    decreases t.effective_spec() - t.elapsed_time,
{
    if t.elapsed_time == t.effective_spec() {
        assert((Timer { elapsed_time: t.effective_spec(), elapsed_millis: 0u16, ..t }) =~= t);
    } else {
        lemma_ten_ticks(t);
        let t10 = (Timer { elapsed_time: ((t.elapsed_time + 1) as u16), ..t });
        lemma_ticked_n_add(t, 10, (10 * (t.effective_spec() - t10.elapsed_time)) as nat);
        lemma_ticks_complete(t10);
        assert((Timer { elapsed_time: t10.effective_spec(), elapsed_millis: 0u16, ..t10 }) =~= (
        Timer { elapsed_time: t.effective_spec(), elapsed_millis: 0u16, ..t }));
    }
}

/// Skipping the current cycle twice from a work cycle ends in exactly the
/// state that ticking the clock through the work cycle and the following
/// break to completion reaches, for any non-zero configured durations.
pub proof fn lemma_next_state_twice_matches_ticking(t: Timer, autow: bool, autob: bool)
    requires
        t.wf(),
        t.current_index == 0,
        t.elapsed_millis == 0,
        t.times@[0] > 0,
        t.times@[1] > 0,
        t.times@[2] > 0,
    ensures
        ({
            let w = ticked_n(t, (10 * (t.effective_spec() - t.elapsed_time)) as nat).transitioned(
                autow,
                autob,
            );
            let done = ticked_n(w, (10 * w.effective_spec()) as nat).transitioned(autow, autob);
            done == t.skipped(autow, autob).skipped(autow, autob)
        }),
{
    lemma_ticks_complete(t);
    let c1 = (Timer { elapsed_time: t.effective_spec(), elapsed_millis: 0u16, ..t });
    let w = c1.transitioned(autow, autob);
    assert(t.skipped(autow, autob) == w);
    lemma_ticks_complete(w);
    let c2 = (Timer { elapsed_time: w.effective_spec(), elapsed_millis: 0u16, ..w });
    assert(ticked_n(w, (10 * (w.effective_spec() - w.elapsed_time)) as nat) == c2);
    assert(w.skipped(autow, autob) == c2.transitioned(autow, autob));
}

/// The cycle progression: completing a work cycle one short of the long
/// break enters the long break with the iteration counter full; completing
/// the long break returns to work with the counter cleared and one more
/// session on record; any other completion toggles between work and the
/// short break, counting an iteration each time work comes back around.
pub proof fn lemma_cycle_progression(t: Timer, autow: bool, autob: bool)
    requires
        t.wf(),
        t.session_completed < 255,
    ensures
        t.current_index == 0 && t.iterations == MAX_ITERATIONS - 1 ==> t.transitioned(
            autow,
            autob,
        ).current_index == 2 && t.transitioned(autow, autob).iterations == MAX_ITERATIONS,
        t.current_index == 2 ==> t.transitioned(autow, autob).current_index == 0
            && t.transitioned(autow, autob).iterations == 0 && t.transitioned(
            autow,
            autob,
        ).session_completed == t.session_completed + 1,
        t.current_index == 0 && t.iterations != MAX_ITERATIONS - 1 ==> t.transitioned(
            autow,
            autob,
        ).current_index == 1 && t.transitioned(autow, autob).iterations == t.iterations,
        t.current_index == 1 ==> t.transitioned(autow, autob).current_index == 0
            && t.transitioned(autow, autob).iterations == t.iterations + 1,
        t.transitioned(autow, autob).session_completed == (if t.current_index == 2 {
            t.session_completed + 1
        } else {
            t.session_completed as int
        }),
{
}

/// A duration adjustment never produces a duration below zero seconds.
pub proof fn lemma_delta_never_negative(current: u16, delta: i16)
    ensures
        clamp_duration(current + delta * 60) >= 0,
{
}

/// The classifier returns exactly one of the four display states, and the
/// untouched state appears exactly when no progress of any kind was made.
pub proof fn lemma_class_cases(t: Timer)
    ensures
        t.class_spec() == ""@ || t.class_spec() == "pause"@ || t.class_spec() == "work"@
            || t.class_spec() == "break"@,
        (t.class_spec() == ""@) <==> (t.elapsed_millis == 0 && t.elapsed_time == 0
            && t.iterations == 0 && t.session_completed == 0),
{
    reveal_strlit("");
    reveal_strlit("pause");
    reveal_strlit("work");
    reveal_strlit("break");
    assert(""@.len() == 0);
    assert("pause"@.len() == 5);
    assert("work"@.len() == 4);
    assert("break"@.len() == 5);
}

} // verus!
