use vstd::prelude::*;

use crate::controllers::MidiModulator;
use crate::devices::held_stack::{index_set_insert, index_set_items, index_set_last, index_set_new, index_set_shift_remove};
use crate::midi_time::MidiTime;
use crate::output_value::OutputValue;

verus! {

/// The root note trigger `id` selects: 52 (the E below middle C) plus the trigger.
pub open spec fn root_for(id: u32) -> int {
    52 + id
}

/// Triggers that select the scale's root note; the newest held one decides. Its
/// modulators follow the root as a centred value, a twelfth of the range per semitone
/// from trigger 8 (middle C).
pub struct RootSelect {
    stack: indexmap::IndexSet<u32>,
    modulators: Vec<MidiModulator>,
}

impl RootSelect {
    /// The held triggers, oldest first.
    pub closed spec fn held(&self) -> Seq<u32> {
        index_set_items(self.stack)
    }

    /// The modulators that follow the root.
    pub closed spec fn outputs(&self) -> Seq<MidiModulator> {
        self.modulators@
    }

    /// Every modulator can send.
    pub closed spec fn well_formed(&self) -> bool {
        forall|i: int| 0 <= i < self.modulators@.len() ==> (#[trigger] self.modulators@[i]).well_formed()
    }

    /// A selector with nothing held.
    pub fn new(modulators: Vec<MidiModulator>) -> (r: RootSelect)
        ensures
            r.held() == Seq::<u32>::empty(),
            r.outputs() == modulators@,
    {
        RootSelect { stack: index_set_new(), modulators }
    }

    /// Sends the newest held trigger's root to the modulators and answers it; answers
    /// nothing when no trigger is held.
    fn refresh_output(&mut self) -> (r: Option<i32>)
        requires
            old(self).well_formed(),
            old(self).held().len() == 0 || old(self).held().last() <= 0x7FFF_FFCB,
        ensures
            final(self).held() == old(self).held(),
            final(self).well_formed(),
            final(self).outputs().len() == old(self).outputs().len(),
            r == if old(self).held().len() > 0 { Some(root_for(old(self).held().last()) as i32) } else { None },
            old(self).held().len() == 0 ==> final(self).outputs() == old(self).outputs(),
    {
        match index_set_last(&self.stack) {
            Some(id) => {
                let twelfths = id as i32 - 8;
                let n = self.modulators.len();
                let mut i: usize = 0;
                while i < n
                    invariant
                        i <= n,
                        self.modulators@.len() == n,
                        forall|k: int| 0 <= k < n ==> (#[trigger] self.modulators@[k]).well_formed(),
                        index_set_items(self.stack) == old(self).held(),
                    decreases n - i,
                {
                    let mut m = self.modulators.remove(0);
                    proof {
                        assert(m.well_formed());
                        m.lemma_channel_fits();
                    }
                    m.send_polar_twelfths(twelfths);
                    self.modulators.push(m);
                    i += 1;
                }
                Some(52 + id as i32)
            }
            None => None,
        }
    }

    /// A trigger changed (a press holds it, a release lets go); answers the root the
    /// newest held trigger selects, if one is held.
    pub fn trigger(&mut self, id: u32, value: OutputValue) -> (r: Option<i32>)
        requires
            old(self).well_formed(),
            id <= 0x7FFF_FFCB,
            forall|i: int| 0 <= i < old(self).held().len() ==> old(self).held()[i] <= 0x7FFF_FFCB,
        ensures
            final(self).well_formed(),
            final(self).held() == match value {
                OutputValue::Off => old(self).held().filter(|x: u32| x != id),
                OutputValue::On(_) => if old(self).held().contains(id) {
                    old(self).held()
                } else {
                    old(self).held().push(id)
                },
            },
            r == if final(self).held().len() > 0 { Some(root_for(final(self).held().last()) as i32) } else { None },
    {
        match value {
            OutputValue::Off => {
                index_set_shift_remove(&mut self.stack, id);
            }
            OutputValue::On(_) => {
                index_set_insert(&mut self.stack, id);
            }
        }
        proof {
            let h = index_set_items(self.stack);
            if h.len() > 0 {
                if h.last() != id {
                    let old_h = old(self).held();
                    assert(h.contains(h.last()));
                    match value {
                        OutputValue::Off => {
                            assert(old_h.filter(|x: u32| x != id).contains(h.last()));
                            old_h.lemma_filter_contains_rev(|x: u32| x != id, h.last());
                            let j = choose|j: int| 0 <= j < old_h.len() && old_h[j] == h.last();
                            assert(old_h[j] <= 0x7FFF_FFCB);
                        },
                        OutputValue::On(_) => {
                            if !old_h.contains(id) {
                                assert(h.last() == id);
                            } else {
                                assert(h == old_h);
                                assert(old_h[old_h.len() - 1] <= 0x7FFF_FFCB);
                            }
                        },
                    }
                }
            }
        }
        self.refresh_output()
    }

    /// The clock moved on: on every whole beat the root is sent again.
    pub fn on_tick(&mut self, time: MidiTime) -> (r: Option<i32>)
        requires
            old(self).well_formed(),
            old(self).held().len() == 0 || old(self).held().last() <= 0x7FFF_FFCB,
        ensures
            final(self).well_formed(),
            final(self).held() == old(self).held(),
            r == if time@ % 6144 == 0 && old(self).held().len() > 0 {
                Some(root_for(old(self).held().last()) as i32)
            } else {
                None
            },
    {
        if time.is_whole_beat() {
            self.refresh_output()
        } else {
            None
        }
    }

    /// Whether a trigger shows as the one in force: the one whose root the scale has (when
    /// the root is at least 52).
    pub fn check_triggering(&self, id: u32, root: i32) -> (r: Option<bool>)
        ensures
            r == if root >= 52 { Some(root - 52 == id) } else { None },
    {
        if root >= 52 {
            Some(root as u32 - 52 == id)
        } else {
            None
        }
    }
}

} // verus!
