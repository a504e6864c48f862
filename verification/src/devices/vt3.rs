use vstd::prelude::*;

use crate::devices::MidiMessage;
use crate::output_value::OutputValue;
use std::collections::HashMap;
use std::collections::HashSet;

verus! {

/// A monophonic vocal synth in robot mode: robot mode is switched on while any trigger is
/// held; the latest held trigger's note sounds, and releasing it brings back the one held
/// before it. The note each trigger plays comes from the scale, looked up by the caller.
pub struct VT3 {
    triggering: HashSet<u32>,
    trigger_stack: Vec<(u32, u8, u8)>,
    outbox: Vec<MidiMessage>,
}

/// Robot mode switched on.
pub open spec fn robot_on() -> MidiMessage {
    MidiMessage::Three(176, 17, 127)
}

/// Robot mode switched off.
pub open spec fn robot_off() -> MidiMessage {
    MidiMessage::Three(176, 17, 0)
}

impl VT3 {
    /// The triggers held.
    pub closed spec fn held(&self) -> Set<u32> {
        self.triggering@
    }

    /// Trigger, note and velocity of each held press, oldest first; the last one sounds.
    pub closed spec fn stack(&self) -> Seq<(u32, u8, u8)> {
        self.trigger_stack@
    }

    /// The messages to send, oldest first.
    pub closed spec fn messages(&self) -> Seq<MidiMessage> {
        self.outbox@
    }

    /// A synth with nothing held.
    pub fn new() -> (r: VT3)
        ensures
            r.held().is_empty(),
            r.stack() == Seq::<(u32, u8, u8)>::empty(),
            r.messages() == Seq::<MidiMessage>::empty(),
    {
        VT3 { triggering: HashSet::new(), trigger_stack: Vec::new(), outbox: Vec::new() }
    }

    /// Plays a trigger (a press plays `note_id`). Robot mode goes on before the first
    /// held trigger and off after the last one is released.
    pub fn trigger(&mut self, id: u32, value: OutputValue, note_id: u8)
        ensures
            ({
                let velocity = match value {
                    OutputValue::On(v) => v,
                    OutputValue::Off => 0u8,
                };
                let stack = old(self).stack();
                let m0 = if old(self).held().len() == 0 { old(self).messages().push(robot_on()) } else { old(self).messages() };
                if velocity > 0 {
                    let m1 = if stack.len() > 0 {
                        m0.push(MidiMessage::Three(128, stack.last().1, stack.last().2))
                    } else {
                        m0
                    };
                    let m2 = m1.push(MidiMessage::Three(144, note_id, velocity));
                    let held = old(self).held().insert(id);
                    &&& final(self).stack() == stack.push((id, note_id, velocity))
                    &&& final(self).held() == held
                    &&& final(self).messages() == if held.len() == 0 { m2.push(robot_off()) } else { m2 }
                } else {
                    let was_top = stack.len() > 0 && stack.last().0 == id;
                    let m1 = if was_top { m0.push(MidiMessage::Three(128, stack.last().1, 0)) } else { m0 };
                    let kept = stack.filter(|e: (u32, u8, u8)| e.0 != id);
                    let m2 = if was_top && kept.len() > 0 {
                        m1.push(MidiMessage::Three(144, kept.last().1, kept.last().2))
                    } else {
                        m1
                    };
                    let held = old(self).held().remove(id);
                    &&& final(self).stack() == kept
                    &&& final(self).held() == held
                    &&& final(self).messages() == if held.len() == 0 { m2.push(robot_off()) } else { m2 }
                }
            }),
    {
        broadcast use vstd::std_specs::hash::group_hash_axioms;
        let velocity = value.value();
        if self.triggering.len() == 0 {
            self.outbox.push(MidiMessage::Three(176, 17, 127));
        }
        if velocity > 0 {
            let n = self.trigger_stack.len();
            if n > 0 {
                let (_, last_note_id, last_velocity) = self.trigger_stack[n - 1];
                self.outbox.push(MidiMessage::Three(128, last_note_id, last_velocity));
            }
            self.trigger_stack.push((id, note_id, velocity));
            self.outbox.push(MidiMessage::Three(144, note_id, velocity));
            self.triggering.insert(id);
        } else {
            let mut should_update = false;
            let n = self.trigger_stack.len();
            if n > 0 {
                let (last_id, last_note_id, _) = self.trigger_stack[n - 1];
                if last_id == id {
                    self.outbox.push(MidiMessage::Three(128, last_note_id, 0));
                    should_update = true;
                }
            }
            let ghost before = self.trigger_stack@;
            let mut kept: Vec<(u32, u8, u8)> = Vec::new();
            let mut i: usize = 0;
            while i < self.trigger_stack.len()
                invariant
                    i <= self.trigger_stack@.len(),
                    self.trigger_stack@ == before,
                    kept@ == before.subrange(0, i as int).filter(|e: (u32, u8, u8)| e.0 != id),
                decreases self.trigger_stack@.len() - i,
            {
                let e = self.trigger_stack[i];
                proof {
                    assert(before.subrange(0, i as int + 1).drop_last() == before.subrange(0, i as int));
                    reveal_with_fuel(Seq::filter, 1);
                }
                if e.0 != id {
                    kept.push(e);
                }
                i += 1;
            }
            proof {
                assert(before.subrange(0, before.len() as int) == before);
            }
            self.trigger_stack = kept;
            self.triggering.remove(&id);
            if should_update {
                let m = self.trigger_stack.len();
                if m > 0 {
                    let (_, last_note_id, last_vel) = self.trigger_stack[m - 1];
                    self.outbox.push(MidiMessage::Three(144, last_note_id, last_vel));
                }
            }
        }
        if self.triggering.len() == 0 {
            self.outbox.push(MidiMessage::Three(176, 17, 0));
        }
    }

    /// The clock moved on: every held press takes its trigger's current note (looked up
    /// by the caller); when the sounding one changed, its new note starts and the old one
    /// stops.
    pub fn on_tick(&mut self, notes: &HashMap<u32, u8>)
        requires
            forall|i: int| 0 <= i < old(self).stack().len() ==> notes@.contains_key(#[trigger] old(self).stack()[i].0),
        ensures
            final(self).held() == old(self).held(),
            final(self).stack().len() == old(self).stack().len(),
            forall|i: int| 0 <= i < old(self).stack().len() ==> #[trigger] final(self).stack()[i] == (
                old(self).stack()[i].0,
                notes@[old(self).stack()[i].0],
                old(self).stack()[i].2,
            ),
            ({
                let stack = old(self).stack();
                if stack.len() > 0 && notes@[stack.last().0] != stack.last().1 {
                    final(self).messages() == old(self).messages()
                        .push(MidiMessage::Three(144, notes@[stack.last().0], stack.last().2))
                        .push(MidiMessage::Three(128, stack.last().1, 0))
                } else {
                    final(self).messages() == old(self).messages()
                }
            }),
    {
        broadcast use vstd::std_specs::hash::group_hash_axioms;
        let n = self.trigger_stack.len();
        if n > 0 {
            let (last_id, last_note_id, last_velocity) = self.trigger_stack[n - 1];
            let new_note_id = *notes.get(&last_id).unwrap();
            if last_note_id != new_note_id {
                self.outbox.push(MidiMessage::Three(144, new_note_id, last_velocity));
                self.outbox.push(MidiMessage::Three(128, last_note_id, 0));
                self.trigger_stack.set(n - 1, (last_id, new_note_id, last_velocity));
            }
        }
        if self.trigger_stack.len() > 1 {
            let ghost before = self.trigger_stack@;
            let ghost held0 = self.triggering@;
            let ghost out0 = self.outbox@;
            let mut i: usize = 0;
            while i < self.trigger_stack.len()
                invariant
                    i <= self.trigger_stack@.len(),
                    self.trigger_stack@.len() == before.len(),
                    self.triggering@ == held0,
                    self.outbox@ == out0,
                    forall|k: int| 0 <= k < before.len() ==> notes@.contains_key(#[trigger] before[k].0),
                    forall|k: int| 0 <= k < i ==> #[trigger] self.trigger_stack@[k] == (before[k].0, notes@[before[k].0], before[k].2),
                    forall|k: int| i <= k < before.len() ==> #[trigger] self.trigger_stack@[k] == before[k],
                decreases self.trigger_stack@.len() - i,
            {
                assert(self.trigger_stack@[i as int] == before[i as int]);
                assert(notes@.contains_key(before[i as int].0));
                let (id, _, velocity) = self.trigger_stack[i];
                let new_note_id = *notes.get(&id).unwrap();
                self.trigger_stack.set(i, (id, new_note_id, velocity));
                i += 1;
            }
        }
    }

    /// Hands out the messages to send, oldest first.
    pub fn take_messages(&mut self) -> (r: Vec<MidiMessage>)
        ensures
            r@ == old(self).messages(),
            final(self).messages() == Seq::<MidiMessage>::empty(),
            final(self).held() == old(self).held(),
            final(self).stack() == old(self).stack(),
    {
        let mut taken: Vec<MidiMessage> = Vec::new();
        std::mem::swap(&mut taken, &mut self.outbox);
        taken
    }
}

} // verus!
