//! The stopwatch that times a round, from the `stopwatch` crate.
//!
//! What a stopwatch shows depends on when it is asked. Nothing is claimed of
//! it: the rules that use a reading are proved for every reading. What can
//! be said is how often a stopwatch was set to zero, and the timer here
//! keeps count of that.

use stopwatch::Stopwatch;
use vstd::prelude::*;

verus! {

/// The type `stopwatch::Stopwatch`, of which Verus sees nothing but that
/// values of it exist.
#[verifier::external_type_specification]
#[verifier::external_body]
pub struct ExStopwatch(stopwatch::Stopwatch);

/// `Stopwatch::new` makes a stopwatch that does not run. Nothing is claimed of it.
pub assume_specification[ stopwatch::Stopwatch::new ]() -> (sw: stopwatch::Stopwatch)
;

/// `Stopwatch::restart` sets a stopwatch to zero and lets it run. Nothing is
/// claimed of the stopwatch afterwards.
pub assume_specification[ stopwatch::Stopwatch::restart ](sw: &mut stopwatch::Stopwatch)
;

/// `Stopwatch::elapsed_ms` gives the milliseconds that a stopwatch has run
/// for. Nothing is claimed of the number.
pub assume_specification[ stopwatch::Stopwatch::elapsed_ms ](sw: &stopwatch::Stopwatch) -> (ms:
    i64)
;

/// A stopwatch together with the number of times it was set to zero.
///
/// The count is the only thing that can be stated of the stopwatch, and
/// there is one way to raise it: `restart`, which sets the stopwatch to
/// zero.
pub struct RoundTimer {
    sw: Stopwatch,
    restarts: Ghost<nat>,
}

impl RoundTimer {
    /// How often the stopwatch was set to zero.
    pub closed spec fn restarts(&self) -> nat {
        self.restarts@
    }

    /// A stopwatch that does not run and was never set to zero.
    pub fn new() -> (timer: RoundTimer)
        ensures
            timer.restarts() == 0,
    {
        RoundTimer { sw: Stopwatch::new(), restarts: Ghost(0) }
    }

    /// Sets the stopwatch to zero and lets it run.
    pub fn restart(&mut self)
        ensures
            final(self).restarts() == old(self).restarts() + 1,
    {
        self.sw.restart();
        self.restarts = Ghost((self.restarts@ + 1) as nat);
    }

    /// The milliseconds that the stopwatch has run for since it was last set to zero.
    pub fn elapsed_ms(&self) -> (ms: i64) {
        self.sw.elapsed_ms()
    }
}

} // verus!
