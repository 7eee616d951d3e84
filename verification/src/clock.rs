//! The clock of the service.

use std::time::Instant;
use vstd::prelude::*;

verus! {

/// `std::time::Instant`, a point on the monotonic clock of the machine. Nothing
/// is said of what is inside.
#[verifier::external_type_specification]
#[verifier::external_body]
pub struct ExInstant(std::time::Instant);

/// `Instant::now` reads the monotonic clock. Nothing is claimed of what it
/// returns.
pub assume_specification[ Instant::now ]() -> Instant;

/// `Instant::elapsed`, with the duration given in nanoseconds. Nothing is
/// claimed of the result: it is whatever the machine's clock says.
#[verifier::external_body]
fn nanos_since(start: &Instant) -> (nanos: u128) {
    start.elapsed().as_nanos()
}

/// Whether `nanos` is what `nanos_since` may return for `start`: the nanoseconds
/// that the machine's clock counts since then, at some reading of it.
pub closed spec fn machine_reads(start: Instant, nanos: u128) -> bool {
    call_ensures(nanos_since, (&start,), nanos)
}

/// Nothing is counted as read but what `nanos_since` returns, as it returns it.
proof fn readings_are_what_was_returned(start: Instant, nanos: u128)
    ensures
        machine_reads(start, nanos) <==> call_ensures(nanos_since, (&start,), nanos),
{
}

/// Tells the time in nanoseconds since the clock was made. The time that it
/// tells never goes back.
pub struct Clock {
    start: Instant,
    latest: u128,
}

impl View for Clock {
    type V = u128;

    /// The latest time that was told.
    closed spec fn view(&self) -> u128 {
        self.latest
    }
}

impl Clock {
    /// When the clock was made: the moment from which its times are counted.
    pub closed spec fn start(&self) -> Instant {
        self.start
    }

    /// A clock that starts now, at zero.
    pub fn new() -> (clock: Clock)
        ensures
            clock@ == 0,
    {
        Clock { start: Instant::now(), latest: 0 }
    }

    /// The nanoseconds since the clock was made. Each time that is told is no
    /// earlier than the one before; by how much it is later is up to the machine.
    pub fn now(&mut self) -> (nanos: u128)
        ensures
            old(self)@ <= nanos,
            exists|reading: u128| #[trigger]
                machine_reads(old(self).start(), reading) && nanos == if reading > old(self)@ {
                    reading
                } else {
                    old(self)@
                },
            final(self)@ == nanos,
            final(self).start() == old(self).start(),
    {
        let nanos: u128 = nanos_since(&self.start);
        assert(machine_reads(self.start(), nanos));
        self.tell(nanos)
    }

    /// The time that is told where the machine's clock says `nanos`: that, or
    /// the latest time that was told, where that is later.
    pub fn tell(&mut self, nanos: u128) -> (t: u128)
        ensures
            final(self)@ == if nanos > old(self)@ {
                nanos
            } else {
                old(self)@
            },
            t == final(self)@,
            final(self).start() == old(self).start(),
    {
        if nanos > self.latest {
            self.latest = nanos;
        }
        self.latest
    }
}

} // verus!
