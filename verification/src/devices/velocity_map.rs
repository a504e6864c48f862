use vstd::prelude::*;

use crate::chunk::{LatchMode, Triggerable};
use crate::output_value::OutputValue;
use std::collections::HashMap;
use vstd::std_specs::iter::IteratorSpec;

verus! {

/// Holds which velocity steps are pressed: a pressed step holds full velocity.
pub struct VelocityMap {
    values: HashMap<u32, u8>,
}

impl VelocityMap {
    pub closed spec fn spec_values(&self) -> Map<u32, u8> {
        self.values@
    }

    pub fn new() -> (r: VelocityMap)
        ensures
            r.spec_values() == Map::<u32, u8>::empty(),
    {
        VelocityMap { values: HashMap::new() }
    }

    /// The velocity of each pressed step.
    pub fn values(&self) -> (r: &HashMap<u32, u8>)
        ensures
            r@ == self.spec_values(),
    {
        &self.values
    }

    /// The steps that are pressed.
    pub fn get_active(&self) -> (r: Vec<u32>)
        ensures
            r@.to_set() == self.spec_values().dom(),
            r@.no_duplicates(),
    {
        broadcast use vstd::std_specs::hash::group_hash_axioms;
        let mut result: Vec<u32> = Vec::new();
        let ghost all = self.values.keys().remaining();
        for key in it: self.values.keys()
            invariant
                it.seq() == all,
                all.unref().to_set() == self.values@.dom(),
                all.unref().no_duplicates(),
                result@ == all.unref().subrange(0, it.index() as int),
        {
            result.push(*key);
            proof {
                assert(result@ =~= all.unref().subrange(0, it.index() + 1));
            }
        }
        proof {
            assert(result@ =~= all.unref());
        }
        result
    }
}

impl Triggerable for VelocityMap {
    fn trigger(&mut self, id: u32, value: OutputValue)
        ensures
            final(self).spec_values() == match value {
                OutputValue::Off => old(self).spec_values().remove(id),
                OutputValue::On(_) => old(self).spec_values().insert(id, 127),
            },
    {
        broadcast use vstd::std_specs::hash::group_hash_axioms;
        match value {
            OutputValue::Off => {
                self.values.remove(&id);
            },
            OutputValue::On(_) => {
                self.values.insert(id, 127);
            },
        }
    }

    fn latch_mode(&self) -> (r: LatchMode)
        ensures
            r == LatchMode::NoSuppress,
    {
        LatchMode::NoSuppress
    }
}

} // verus!
