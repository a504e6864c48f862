use vstd::prelude::*;

use crate::output_value::OutputValue;

verus! {

/// Which of the sampler's two choke groups are on.
#[derive(Debug, Copy, Clone, PartialEq, Eq, Structural)]
pub struct SP404Choke {
    pub a: bool,
    pub b: bool,
}

/// Two grid triggers that hold the sampler's choke groups on: trigger 0 the first group,
/// trigger 1 the second.
pub struct ChokeSwitch {
    chokes: SP404Choke,
}

impl ChokeSwitch {
    /// The choke groups as the switch holds them.
    pub closed spec fn state(&self) -> SP404Choke {
        self.chokes
    }

    /// A switch starting from the given choke groups.
    pub fn new(chokes: SP404Choke) -> (r: ChokeSwitch)
        ensures
            r.state() == chokes,
    {
        ChokeSwitch { chokes }
    }

    /// The choke groups now.
    pub fn chokes(&self) -> (r: SP404Choke)
        ensures
            r == self.state(),
    {
        self.chokes
    }

    /// A trigger changed: trigger 0 sets the first group, trigger 1 the second, to whether
    /// it is pressed.
    pub fn trigger(&mut self, id: u32, value: OutputValue)
        ensures
            final(self).state() == if id == 0 {
                SP404Choke { a: value is On, ..old(self).state() }
            } else if id == 1 {
                SP404Choke { b: value is On, ..old(self).state() }
            } else {
                old(self).state()
            },
    {
        if id == 0 {
            self.chokes.a = value.is_on();
        } else if id == 1 {
            self.chokes.b = value.is_on();
        }
    }
}

} // verus!
