use vstd::prelude::*;

use crate::config::spec_all;
use crate::controllers::{default_all, MidiModulator};
use crate::midi_time::MidiTime;

verus! {

/// What sending its defaults does to a modulator.
pub open spec fn defaults_sent(before: MidiModulator, after: MidiModulator) -> bool {
    let (msgs, t) = default_all(spec_all(before.modulator()), spec_all(before.modulator()), before.channel(), before.triggered());
    &&& after.sent() == before.sent() + msgs
    &&& after.triggered() == t
    &&& after.channel() == before.channel()
    &&& after.modulator() == before.modulator()
    &&& after.rx_port() == before.rx_port()
    &&& after.well_formed()
}

/// Sends every modulator's default value once, at the first scheduled tick.
pub struct Init {
    modulators: Vec<MidiModulator>,
    scheduled: bool,
}

impl Init {
    /// The modulators, in order.
    pub closed spec fn outputs(&self) -> Seq<MidiModulator> {
        self.modulators@
    }

    /// Whether the defaults were sent.
    pub closed spec fn done(&self) -> bool {
        self.scheduled
    }

    /// Every modulator can send.
    pub open spec fn well_formed(&self) -> bool {
        forall|i: int| 0 <= i < self.outputs().len() ==> (#[trigger] self.outputs()[i]).well_formed()
    }

    /// Defaults for these modulators, not sent yet.
    pub fn new(modulators: Vec<MidiModulator>) -> (r: Init)
        ensures
            r.outputs() == modulators@,
            !r.done(),
    {
        Init { modulators, scheduled: false }
    }

    /// The clock ticked: sends every modulator's defaults, in order, the first time;
    /// later ticks do nothing.
    pub fn schedule(&mut self, _pos: MidiTime)
        requires
            old(self).well_formed(),
        ensures
            final(self).done(),
            final(self).outputs().len() == old(self).outputs().len(),
            old(self).done() ==> final(self).outputs() == old(self).outputs(),
            !old(self).done() ==> forall|i: int| 0 <= i < old(self).outputs().len()
                ==> defaults_sent(old(self).outputs()[i], #[trigger] final(self).outputs()[i]),
            final(self).well_formed(),
    {
        if !self.scheduled {
            let ghost start = self.modulators@;
            let n = self.modulators.len();
            let mut i: usize = 0;
            while i < n
                invariant
                    i <= n,
                    n == start.len(),
                    self.modulators@.len() == n,
                    forall|k: int| 0 <= k < n - i ==> #[trigger] self.modulators@[k] == start[k + i],
                    forall|k: int| 0 <= k < i ==> defaults_sent(start[k], #[trigger] self.modulators@[n - i + k]),
                    forall|k: int| 0 <= k < n ==> (#[trigger] start[k]).well_formed(),
                    !self.scheduled,
                decreases n - i,
            {
                let ghost before = self.modulators@;
                let mut m = self.modulators.remove(0);
                proof {
                    assert(m == start[i as int]);
                }
                m.send_default();
                self.modulators.push(m);
                proof {
                    assert forall|k: int| 0 <= k < n - (i + 1) implies #[trigger] self.modulators@[k] == start[k + i + 1] by {
                        assert(self.modulators@[k] == before[k + 1]);
                    }
                    assert forall|k: int| 0 <= k < i + 1 implies defaults_sent(start[k], #[trigger] self.modulators@[n - (i + 1) + k]) by {
                        if k < i {
                            assert(self.modulators@[n - (i + 1) + k] == before[n - i + k]);
                        }
                    }
                }
                i += 1;
            }
            proof {
                assert forall|k: int| 0 <= k < n implies defaults_sent(start[k], #[trigger] self.modulators@[k]) by {
                    assert(n - i + k == k);
                    assert(defaults_sent(start[k], self.modulators@[n - i + k]));
                }
            }
            self.scheduled = true;
        }
    }
}

} // verus!
