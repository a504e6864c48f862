use vstd::prelude::*;

use super::offset::{HeldOffsets, MAX_HELD};
use crate::output_value::OutputValue;

verus! {

/// Shifts the scale's root by the sum of the held offset triggers.
pub struct RootOffsetChunk {
    held: HeldOffsets,
}

impl RootOffsetChunk {
    pub closed spec fn held(&self) -> HeldOffsets {
        self.held
    }

    pub fn new() -> (r: RootOffsetChunk)
        ensures
            r.held().ids() == Seq::<u32>::empty(),
            r.held().well_formed(),
    {
        RootOffsetChunk { held: HeldOffsets::new() }
    }

    /// A trigger changed value; returns the root offset the scale now takes.
    pub fn trigger(&mut self, id: u32, value: OutputValue) -> (r: i32)
        requires
            old(self).held().well_formed(),
            old(self).held().ids().len() + 1 < MAX_HELD,
        ensures
            final(self).held().well_formed(),
            final(self).held().ids().to_set() == match value {
                OutputValue::Off => old(self).held().ids().to_set().remove(id),
                OutputValue::On(_) => old(self).held().ids().to_set().insert(id),
            },
            r == final(self).held().total(),
    {
        self.held.trigger(id, value)
    }
}

} // verus!
