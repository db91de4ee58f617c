//! Whole-number core of a zero-based monotonic timer.
//!
//! A timer takes a baseline from a raw tick counter and afterwards reads the
//! ticks made since, together with the counter's rate in ticks per second.
//! The rate comes from the counter's time base, divided and rounded as a
//! double-precision division rounds it, and every step of that is done and
//! proved here in whole numbers. Reading the counter itself, and turning a
//! reading into a fraction of a second, is left to the caller.
//!
//! - [`rounding`]: quotients of whole numbers rounded to 53 significant bits.
//! - [`timebase`]: the time base and the tick rate that follows from it.
//! - [`timer`]: the timer, its two states and its readings.

pub mod rounding;
pub mod timebase;
pub mod timer;
