use vstd::prelude::*;

use crate::chunk::{LatchMode, ScheduleMode, Triggerable};
use crate::midi_time::MidiTime;
use crate::output_value::OutputValue;

verus! {

/// Several chunks played as one: every trigger and tick goes to each of them; the first
/// one decides how triggers latch and are scheduled.
pub struct MultiChunk {
    chunks: Vec<Box<dyn Triggerable>>,
}

impl MultiChunk {
    #[verifier::type_invariant]
    spec fn inv(&self) -> bool {
        self.chunks@.len() > 0
    }

    /// The number of chunks played together.
    pub closed spec fn size(&self) -> nat {
        self.chunks@.len()
    }

    /// The chunks played together, the first deciding latch and schedule modes.
    pub closed spec fn held(&self) -> Seq<Box<dyn Triggerable>> {
        self.chunks@
    }

    /// Plays the given chunks together, in the given order.
    pub fn new(chunks: Vec<Box<dyn Triggerable>>) -> (r: MultiChunk)
        requires
            chunks@.len() > 0,
        ensures
            r.size() == chunks@.len(),
            r.held() == chunks@,
    {
        MultiChunk { chunks }
    }
}

impl Triggerable for MultiChunk {
    fn trigger(&mut self, id: u32, value: OutputValue) {
        let mut i: usize = 0;
        let n = self.chunks.len();
        while i < n
            invariant
                n == self.chunks@.len(),
                i <= n,
            decreases n - i,
        {
            self.chunks[i].trigger(id, value);
            i = i + 1;
        }
    }

    fn on_tick(&mut self, time: MidiTime) {
        let mut i: usize = 0;
        let n = self.chunks.len();
        while i < n
            invariant
                n == self.chunks@.len(),
                i <= n,
            decreases n - i,
        {
            self.chunks[i].on_tick(time);
            i = i + 1;
        }
    }

    fn latch_mode(&self) -> LatchMode {
        proof {
            use_type_invariant(self);
        }
        self.chunks[0].latch_mode()
    }

    fn schedule_mode(&self) -> ScheduleMode {
        proof {
            use_type_invariant(self);
        }
        self.chunks[0].schedule_mode()
    }
}

} // verus!
