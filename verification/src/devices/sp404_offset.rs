use vstd::prelude::*;

use crate::chunk::{LatchMode, Triggerable};
use crate::output_value::OutputValue;

verus! {

/// The bank a trigger selects, by trigger (cycling every ten).
pub open spec fn bank_for(id: u32) -> usize {
    seq![0usize, 1, 2, 3, 5, 6, 7, 8, 4, 9][(id % 10) as int]
}

/// The banks by trigger, cycling every ten: 0 to 3, then 5 to 8, then 4, then 9.
pub proof fn law_sp404_banks(id: u32)
    ensures
        id % 10 < 4 ==> bank_for(id) == id % 10,
        4 <= id % 10 < 8 ==> bank_for(id) == id % 10 + 1,
        id % 10 == 8 ==> bank_for(id) == 4,
        id % 10 == 9 ==> bank_for(id) == 9,
{
}

/// Selects the SP-404 bank that pads play from.
pub struct SP404Offset {
    offset: usize,
}

impl SP404Offset {
    pub closed spec fn spec_offset(&self) -> usize {
        self.offset
    }

    /// Starts at the first bank.
    pub fn new() -> (r: SP404Offset)
        ensures
            r.spec_offset() == 0,
    {
        SP404Offset { offset: 0 }
    }

    /// The selected bank.
    pub fn offset(&self) -> (r: usize)
        ensures
            r == self.spec_offset(),
    {
        self.offset
    }
}

impl Triggerable for SP404Offset {
    fn trigger(&mut self, id: u32, value: OutputValue)
        ensures
            final(self).spec_offset() == match value {
                OutputValue::On(_) => bank_for(id),
                OutputValue::Off => old(self).spec_offset(),
            },
    {
        match value {
            OutputValue::Off => {},
            OutputValue::On(_) => {
                let offsets: [usize; 10] = [0, 1, 2, 3, 5, 6, 7, 8, 4, 9];
                proof {
                    assert(offsets@ =~= seq![0usize, 1, 2, 3, 5, 6, 7, 8, 4, 9]);
                }
                self.offset = offsets[(id % 10) as usize];
            },
        }
    }

    fn latch_mode(&self) -> (r: LatchMode)
        ensures
            r == LatchMode::LatchSingle,
    {
        LatchMode::LatchSingle
    }
}

} // verus!
