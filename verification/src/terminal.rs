//! The terminal's verbosity policy: which messages pass at which mode.
//! Deciding is the library's part; printing what passes is the caller's.

use vstd::prelude::*;

verus! {

/// How talkative the terminal is.
#[derive(Debug, Clone, Copy, PartialEq, Eq, Structural)]
pub enum Mode {
    Quiet,
    Standard,
    Verbose,
}

/// The rank of a mode: quieter modes rank lower.
pub open spec fn spec_mode_rank(m: Mode) -> int {
    match m {
        Mode::Quiet => 0,
        Mode::Standard => 2,
        Mode::Verbose => 3,
    }
}

fn mode_rank(m: Mode) -> (r: u8)
    ensures
        r as int == spec_mode_rank(m),
{
    match m {
        Mode::Quiet => 0,
        Mode::Standard => 2,
        Mode::Verbose => 3,
    }
}

/// A terminal with a fixed verbosity mode.
#[derive(Debug)]
pub struct Terminal {
    pub mode: Mode,
}

impl Terminal {
    /// A terminal in quiet, verbose or standard mode; asking for both
    /// quiet and verbose is contradictory and left out.
    pub fn new(quiet: bool, verbose: bool) -> (r: Terminal)
        requires
            !(quiet && verbose),
        ensures
            r.mode == (if quiet {
                Mode::Quiet
            } else if verbose {
                Mode::Verbose
            } else {
                Mode::Standard
            }),
    {
        let mode = if quiet {
            Mode::Quiet
        } else if verbose {
            Mode::Verbose
        } else {
            Mode::Standard
        };
        Terminal { mode }
    }

    /// The message to print when the terminal is at least as talkative as
    /// `mode`; nothing otherwise.
    pub fn print_above(&self, mode: Mode, msg: String) -> (r: Option<String>)
        ensures
            match r {
                Some(m) => spec_mode_rank(self.mode) >= spec_mode_rank(mode) && m@ == msg@,
                None => spec_mode_rank(self.mode) < spec_mode_rank(mode),
            },
    {
        if mode_rank(self.mode) >= mode_rank(mode) {
            Some(msg)
        } else {
            None
        }
    }

    /// The message to print when the terminal's mode lies in the range
    /// `from` (inclusive) to `until` (exclusive); nothing otherwise.
    pub fn print_between(&self, from: Mode, until: Mode, msg: String) -> (r: Option<String>)
        ensures
            match r {
                Some(m) => spec_mode_rank(self.mode) >= spec_mode_rank(from) && spec_mode_rank(
                    self.mode,
                ) < spec_mode_rank(until) && m@ == msg@,
                None => !(spec_mode_rank(self.mode) >= spec_mode_rank(from) && spec_mode_rank(
                    self.mode,
                ) < spec_mode_rank(until)),
            },
    {
        let own = mode_rank(self.mode);
        if own >= mode_rank(from) && own < mode_rank(until) {
            Some(msg)
        } else {
            None
        }
    }
}

} // verus!
