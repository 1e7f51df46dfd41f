use vstd::prelude::*;

verus! {

/// Seconds in one minute; duration values arrive in minutes and are stored in seconds.
pub const MINUTE: u16 = 60;

/// Seconds in one hour; used when formatting remaining time.
pub const HOUR: u16 = 3600;

/// Number of completed work cycles after which the long break is taken.
pub const MAX_ITERATIONS: u8 = 4;

/// Milliseconds that one tick of the daemon loop advances the clock.
pub const SLEEP_TIME: u16 = 100;

/// Default work cycle duration, in seconds.
pub const WORK_TIME: u16 = 1500;

/// Default short break duration, in seconds.
pub const SHORT_BREAK_TIME: u16 = 300;

/// Default long break duration, in seconds.
pub const LONG_BREAK_TIME: u16 = 900;

} // verus!

