//! The host boundary — Six's window to the outside world.
//!
//! The runtime associations that turn an ordinary Group into a live host
//! relationship, and the decisions behind the two pure observations,
//! `entropy` and `time`: which bits of a random word become the number, and
//! which clock a mode names. Reading the clock or the random source happens
//! outside.

use vstd::prelude::*;

use crate::chars::{chars_of, spells, text};
use crate::error::{ErrView, SixError, err_at};

verus! {

/// A hidden runtime association bound to a Group's *identity* (never to its
/// visible contents). This is what turns an ordinary Group into a live host
/// relationship.
///
/// Aliasing shares the association; `::` deep-copy makes a fresh Group with
/// no association; visible mutation never touches it.
#[derive(Debug, Clone, Copy, PartialEq, Eq, Structural)]
pub enum Assoc {
    /// The program's runtime input channel (`in` / `close`).
    RuntimeInput,
    /// The program's runtime output channel (`out` / `close`).
    RuntimeOutput,
    /// The program's runtime diagnostic channel (`out` / `close`).
    RuntimeError,
    /// A relationship that has been closed. Any further use is a runtime error;
    /// closing again is a runtime error. Kept distinct from "no association" so
    /// the error message can tell a closed relationship from a deep copy.
    Closed,
}

/// The name error messages give an association.
pub open spec fn assoc_name(a: Assoc) -> Seq<char> {
    match a {
        Assoc::RuntimeInput => "input channel"@,
        Assoc::RuntimeOutput => "output channel"@,
        Assoc::RuntimeError => "error channel"@,
        Assoc::Closed => "closed relationship"@,
    }
}

impl Assoc {
    /// A short human name for error messages.
    pub fn describe(&self) -> (r: &'static str)
        ensures
            r@ == assoc_name(*self),
    {
        match self {
            Assoc::RuntimeInput => "input channel",
            Assoc::RuntimeOutput => "output channel",
            Assoc::RuntimeError => "error channel",
            Assoc::Closed => "closed relationship",
        }
    }
}

/// 2^53 - 1: every integer through here is exactly representable as a Six
/// number.
pub const MAX_53: u64 = 0x1f_ffff_ffff_ffff;

/// The value `entropy()` draws from one uniformly random 64-bit word: its low
/// 53 bits, an integer in `0 ..= 2^53 - 1`.
pub fn entropy_bits(raw: u64) -> (r: u64)
    ensures
        r == raw % 0x20_0000_0000_0000,
        r <= MAX_53,
{
    let r = raw & MAX_53;
    assert(raw & 0x1f_ffff_ffff_ffff == raw % 0x20_0000_0000_0000) by (bit_vector);
    assert(raw & 0x1f_ffff_ffff_ffff <= 0x1f_ffff_ffff_ffff) by (bit_vector);
    r
}

/// The clocks `time(mode)` can read.
#[derive(Debug, Clone, Copy, PartialEq, Eq, Structural)]
pub enum Clock {
    /// Microseconds since the Unix epoch (may move backward).
    Utc,
    /// Microseconds from a monotonic origin (never decreases).
    Steady,
}

/// The clock a `time` mode names, or the error for any other mode.
pub open spec fn clock_for(mode: Seq<char>, line: usize) -> Result<Clock, ErrView> {
    if mode == "utc"@ {
        Ok(Clock::Utc)
    } else if mode == "steady"@ {
        Ok(Clock::Steady)
    } else {
        Err(
            err_at(
                line,
                "time mode must be \"utc\" or \"steady\", not \""@ + mode + "\""@,
            ),
        )
    }
}

/// Which clock `time(mode)` reads: `"utc"` or `"steady"`; any other mode is
/// an error at `line`.
pub fn time_mode(mode: &str, line: usize) -> (r: Result<Clock, SixError>)
    ensures
        match clock_for(mode@, line) {
            Ok(c) => r == Ok::<Clock, SixError>(c),
            Err(e) => (r matches Err(x) && x@ == e),
        },
{
    let cs = chars_of(mode);
    if spells(cs.as_slice(), "utc") {
        Ok(Clock::Utc)
    } else if spells(cs.as_slice(), "steady") {
        Ok(Clock::Steady)
    } else {
        let mut m = text("time mode must be \"utc\" or \"steady\", not \"");
        m.append(mode);
        m.append("\"");
        Err(SixError::at(line, m))
    }
}

} // verus!
