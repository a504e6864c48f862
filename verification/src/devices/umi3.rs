use vstd::prelude::*;

use crate::loop_grid_launchpad::LoopGridRemoteEvent;

verus! {

/// A three-button foot switch: its notes 60, 62 and 64 work the loop, double and
/// sustain buttons of the pad grid.
pub struct Umi3 {}

/// The grid button a foot switch message works, pressed when its velocity is above 0.
pub open spec fn pedal_event(message: Seq<u8>) -> Option<LoopGridRemoteEvent> {
    if message.len() == 3 && message[0] == 144 && message[1] == 60 {
        Some(LoopGridRemoteEvent::LoopButton(message[2] > 0))
    } else if message.len() == 3 && message[0] == 144 && message[1] == 62 {
        Some(LoopGridRemoteEvent::DoubleButton(message[2] > 0))
    } else if message.len() == 3 && message[0] == 144 && message[1] == 64 {
        Some(LoopGridRemoteEvent::SustainButton(message[2] > 0))
    } else {
        None
    }
}

impl Umi3 {
    /// A foot switch.
    pub fn new() -> (r: Umi3) {
        Umi3 {}
    }

    /// The grid button a message of the foot switch works, if any.
    pub fn remote_event(&self, message: &[u8]) -> (r: Option<LoopGridRemoteEvent>)
        ensures
            r == pedal_event(message@),
    {
        if message.len() == 3 && message[0] == 144 {
            let velocity = message[2];
            if message[1] == 60 {
                Some(LoopGridRemoteEvent::LoopButton(velocity > 0))
            } else if message[1] == 62 {
                Some(LoopGridRemoteEvent::DoubleButton(velocity > 0))
            } else if message[1] == 64 {
                Some(LoopGridRemoteEvent::SustainButton(velocity > 0))
            } else {
                None
            }
        } else {
            None
        }
    }
}

} // verus!
