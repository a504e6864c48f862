use vstd::prelude::*;

verus! {

/// The value a trigger carries: pressed with a velocity, or released.
#[derive(Debug, Copy, Clone, PartialEq, Eq, Structural, Hash)]
pub enum OutputValue {
    On(u8),
    Off,
}

/// Position of a value in the ordering of values: every `On` comes before `Off`,
/// and `On` values are ordered by velocity.
pub open spec fn value_rank(v: OutputValue) -> int {
    match v {
        OutputValue::On(x) => x as int,
        OutputValue::Off => 256,
    }
}

pub proof fn lemma_rank_determines(a: OutputValue, b: OutputValue)
    ensures
        value_rank(a) == value_rank(b) <==> a == b,
{
}

impl OutputValue {
    /// Whether this value is a press.
    pub fn is_on(&self) -> (r: bool)
        ensures
            r == (*self is On),
    {
        match self {
            OutputValue::On(_) => true,
            OutputValue::Off => false,
        }
    }

    /// The velocity of a press, zero for a release.
    pub fn value(&self) -> (r: u8)
        ensures
            r == match *self {
                OutputValue::On(v) => v,
                OutputValue::Off => 0u8,
            },
    {
        match self {
            OutputValue::On(v) => *v,
            OutputValue::Off => 0,
        }
    }

    /// The rank of this value in the ordering of values.
    pub fn rank(&self) -> (r: u16)
        ensures
            r == value_rank(*self),
    {
        match self {
            OutputValue::On(v) => *v as u16,
            OutputValue::Off => 256,
        }
    }
}

} // verus!
