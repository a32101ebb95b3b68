use vstd::prelude::*;
use vstd::wrapping::u64_specs;

verus! {

/// A source of scalar draws, one per call.
///
/// The library consumes exactly one draw per connection weight it creates or
/// replaces, in a fixed order, and that order is part of its contracts: the
/// spec function `drawn` records every value the source has handed out,
/// oldest first, and `get_number` promises only to append its result to that
/// record. Nothing else is assumed of the values, so a source may be
/// deterministic (see [`CountingRandomizer`]) or genuinely random (a caller
/// can sample any distribution and hand over the sample's bit pattern).
pub trait RandomProvider: Sized {
    /// Every value this source has handed out so far, oldest first.
    ///
    /// The default stands in for sources implemented outside the
    /// verifier's sight; a verified source gives its own record.
    open spec fn drawn(&self) -> Seq<u64> {
        Seq::empty()
    }

    /// Returns the next draw and records it.
    fn get_number(&mut self) -> (r: u64)
        ensures
            final(self).drawn() == old(self).drawn().push(r),
    ;
}

/// A deterministic fixed-sequence source: each draw is the previous one plus
/// a fixed step, wrapping around on overflow.
///
/// This is the in-library counterpart of a distribution-backed source: runs
/// seeded with it are exactly reproducible, which the engine's regression
/// scenarios rely on.
pub struct CountingRandomizer {
    current: u64,
    step: u64,
    history: Ghost<Seq<u64>>,
}

impl CountingRandomizer {
    /// The value the next call to `get_number` will return.
    pub closed spec fn spec_current(&self) -> u64 {
        u64_specs::wrapping_add(self.current, self.step)
    }

    /// The step added before every draw.
    pub closed spec fn spec_step(&self) -> u64 {
        self.step
    }

    /// Creates a source whose first draw is `start + step`, counting on from
    /// there by `step` per draw.
    pub fn new(start: u64, step: u64) -> (r: CountingRandomizer)
        ensures
            r.drawn() == Seq::<u64>::empty(),
            r.spec_current() == u64_specs::wrapping_add(start, step),
            r.spec_step() == step,
    {
        CountingRandomizer { current: start, step, history: Ghost(Seq::empty()) }
    }
}

impl RandomProvider for CountingRandomizer {
    closed spec fn drawn(&self) -> Seq<u64> {
        self.history@
    }

    fn get_number(&mut self) -> (r: u64)
        ensures
            final(self).drawn() == old(self).drawn().push(r),
            r == old(self).spec_current(),
            final(self).spec_step() == old(self).spec_step(),
            final(self).spec_current() == u64_specs::wrapping_add(r, old(self).spec_step()),
    {
        self.current = self.current.wrapping_add(self.step);
        let r = self.current;
        proof {
            self.history@ = self.history@.push(r);
        }
        r
    }
}

} // verus!
