//! Timing of the stages of a tick.
use vstd::prelude::*;
use std::time::Instant;

verus! {

/// `std::time::Instant`, a point in time that the library only carries.
#[verifier::external_type_specification]
#[verifier::external_body]
pub struct ExInstant(Instant);

/// A named stage and when it finished.
pub struct Stage {
    name: &'static str,
    finish: Instant,
}

impl Stage {
    pub closed spec fn spec_name(&self) -> &'static str {
        self.name
    }

    pub closed spec fn spec_finish(&self) -> Instant {
        self.finish
    }

    pub fn name(&self) -> (r: &'static str)
        ensures
            r == self.spec_name(),
    {
        self.name
    }

    pub fn finish(&self) -> (r: &Instant)
        ensures
            *r == self.spec_finish(),
    {
        &self.finish
    }
}

/// The start of a tick and the stages finished since, in order.
pub struct Profiler {
    start: Instant,
    stages: Vec<Stage>,
}

impl Profiler {
    pub closed spec fn spec_start(&self) -> Instant {
        self.start
    }

    /// The stages as (name, finish) pairs, oldest first.
    pub closed spec fn spec_stages(&self) -> Seq<(&'static str, Instant)> {
        self.stages@.map_values(|s: Stage| (s.name, s.finish))
    }

    pub fn new(start: Instant) -> (r: Self)
        ensures
            r.spec_start() == start,
            r.spec_stages() == Seq::<(&'static str, Instant)>::empty(),
    {
        Profiler { start, stages: Vec::new() }
    }

    /// Starts over at `start`, forgetting all stages.
    pub fn reset(&mut self, start: Instant)
        ensures
            final(self).spec_start() == start,
            final(self).spec_stages() == Seq::<(&'static str, Instant)>::empty(),
    {
        self.start = start;
        self.stages.clear();
        proof {
            assert(self.stages@.map_values(|s: Stage| (s.name, s.finish)) =~= Seq::<
                (&'static str, Instant),
            >::empty());
        }
    }

    /// Records that the stage `name` finished at `finish`.
    pub fn stage(&mut self, name: &'static str, finish: Instant)
        ensures
            final(self).spec_start() == old(self).spec_start(),
            final(self).spec_stages() == old(self).spec_stages().push((name, finish)),
    {
        self.stages.push(Stage { name, finish });
        proof {
            assert(self.stages@.map_values(|s: Stage| (s.name, s.finish)) =~= old(
                self,
            ).stages@.map_values(|s: Stage| (s.name, s.finish)).push((name, finish)));
        }
    }

    pub fn start(&self) -> (r: &Instant)
        ensures
            *r == self.spec_start(),
    {
        &self.start
    }

    pub fn stages(&self) -> (r: &Vec<Stage>)
        ensures
            r@.map_values(|s: Stage| (s.spec_name(), s.spec_finish())) == self.spec_stages(),
    {
        proof {
            assert(self.stages@.map_values(|s: Stage| (s.spec_name(), s.spec_finish())) =~= self.spec_stages());
        }
        &self.stages
    }
}

} // verus!
