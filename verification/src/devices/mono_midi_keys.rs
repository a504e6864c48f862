use vstd::prelude::*;

use crate::devices::{map_velocity, map_view, spec_map_velocity, velocity_map_defined, MidiMessage};
use crate::output_value::OutputValue;
use std::collections::HashMap;

verus! {

/// A monophonic keyboard part: the latest held key sounds; releasing it brings back the
/// key held before it. The note each key plays comes from the scale, looked up by the
/// caller.
pub struct MonoMidiKeys {
    midi_channel: u8,
    output_values: HashMap<u32, (u8, u8)>,
    output_stack: Vec<u32>,
    velocity_map: Option<Vec<u8>>,
    octave_offset: i32,
    outbox: Vec<MidiMessage>,
}

/// The value a map holds for a key, if any.
pub open spec fn entry(m: Map<u32, (u8, u8)>, k: u32) -> Option<(u8, u8)> {
    if m.contains_key(k) { Some(m[k]) } else { None }
}

impl MonoMidiKeys {
    /// The channel played (1 to 16).
    pub closed spec fn channel(&self) -> u8 {
        self.midi_channel
    }

    /// Note and velocity of each key held.
    pub closed spec fn held(&self) -> Map<u32, (u8, u8)> {
        self.output_values@
    }

    /// The keys in the order they were pressed; the last one sounds.
    pub closed spec fn stack(&self) -> Seq<u32> {
        self.output_stack@
    }

    /// The messages to send, oldest first.
    pub closed spec fn messages(&self) -> Seq<MidiMessage> {
        self.outbox@
    }

    /// The optional velocity map.
    pub closed spec fn velocities(&self) -> Option<Seq<u8>> {
        map_view(&self.velocity_map)
    }

    /// Octaves added to every note.
    pub closed spec fn octave(&self) -> i32 {
        self.octave_offset
    }

    /// A part on `midi_channel` (1 to 16) with nothing held.
    pub fn new(midi_channel: u8, octave_offset: i32, velocity_map: Option<Vec<u8>>) -> (r: MonoMidiKeys)
        ensures
            r.channel() == midi_channel,
            r.octave() == octave_offset,
            r.held().is_empty(),
            r.stack() == Seq::<u32>::empty(),
            r.messages() == Seq::<MidiMessage>::empty(),
            r.velocities() == map_view(&velocity_map),
    {
        MonoMidiKeys {
            midi_channel,
            velocity_map,
            output_values: HashMap::new(),
            output_stack: Vec::new(),
            octave_offset,
            outbox: Vec::new(),
        }
    }

    /// The key that sounds, if any.
    pub fn top(&self) -> (r: Option<u32>)
        ensures
            r == (if self.stack().len() > 0 { Some(self.stack().last()) } else { None }),
    {
        let n = self.output_stack.len();
        if n > 0 { Some(self.output_stack[n - 1]) } else { None }
    }

    /// Plays a key. A press starts its note (`note_id`, with the mapped velocity), stops
    /// the note of the key that sounded before, and puts the key on top. A release of the
    /// sounding key brings back the note of the key below it and stops its own; any
    /// released key leaves the stack and is forgotten.
    pub fn trigger(&mut self, id: u32, value: OutputValue, note_id: u8)
        requires
            1 <= old(self).channel() <= 16,
            value matches OutputValue::On(v) ==> velocity_map_defined(old(self).velocities(), v),
        ensures
            final(self).channel() == old(self).channel(),
            final(self).octave() == old(self).octave(),
            final(self).velocities() == old(self).velocities(),
            ({
                let ch = old(self).channel() as int;
                let stack = old(self).stack();
                match value {
                    OutputValue::Off => {
                        let popped = if stack.len() > 0 && stack.last() == id { stack.drop_last() } else { stack };
                        let msgs = if old(self).held().contains_key(id) && stack.len() > 0 && stack.last() == id {
                            let with_restart = if popped.len() > 0 && old(self).held().contains_key(popped.last()) {
                                let (n, v) = old(self).held()[popped.last()];
                                old(self).messages().push(MidiMessage::Three((143 + ch) as u8, n, v))
                            } else {
                                old(self).messages()
                            };
                            with_restart.push(MidiMessage::Three((127 + ch) as u8, old(self).held()[id].0, 0))
                        } else {
                            old(self).messages()
                        };
                        let kept = if old(self).held().contains_key(id) { popped } else { stack };
                        &&& final(self).messages() == msgs
                        &&& final(self).held() == old(self).held().remove(id)
                        &&& final(self).stack() == kept.filter(|x: u32| x != id)
                    },
                    OutputValue::On(v) => {
                        let velocity = spec_map_velocity(old(self).velocities(), v);
                        let held = old(self).held().insert(id, (note_id, velocity));
                        let started = old(self).messages().push(MidiMessage::Three((143 + ch) as u8, note_id, velocity));
                        &&& final(self).held() == held
                        &&& final(self).stack() == stack.push(id)
                        &&& final(self).messages() == if stack.len() > 0 && held.contains_key(stack.last()) {
                            started.push(MidiMessage::Three((127 + ch) as u8, held[stack.last()].0, 0))
                        } else {
                            started
                        }
                    },
                }
            }),
    {
        broadcast use vstd::std_specs::hash::group_hash_axioms;
        let channel = self.midi_channel;
        match value {
            OutputValue::Off => {
                if let Some(held) = self.output_values.get(&id) {
                    let (note_id, _) = *held;
                    let n = self.output_stack.len();
                    if n > 0 && self.output_stack[n - 1] == id {
                        self.output_stack.pop();
                        let m = self.output_stack.len();
                        if m > 0 {
                            let last = self.output_stack[m - 1];
                            if let Some(last_note) = self.output_values.get(&last) {
                                self.outbox.push(MidiMessage::Three(144 + channel - 1, last_note.0, last_note.1));
                            }
                        }
                        self.outbox.push(MidiMessage::Three(128 + channel - 1, note_id, 0));
                    }
                    self.output_values.remove(&id);
                }
                let ghost before = self.output_stack@;
                let mut kept: Vec<u32> = Vec::new();
                let mut i: usize = 0;
                while i < self.output_stack.len()
                    invariant
                        i <= self.output_stack@.len(),
                        self.output_stack@ == before,
                        kept@ == before.subrange(0, i as int).filter(|x: u32| x != id),
                    decreases self.output_stack@.len() - i,
                {
                    let x = self.output_stack[i];
                    proof {
                        assert(before.subrange(0, i as int + 1) == before.subrange(0, i as int).push(x));
                        assert(before.subrange(0, i as int + 1).drop_last() == before.subrange(0, i as int));
                        reveal_with_fuel(Seq::filter, 1);
                    }
                    if x != id {
                        kept.push(x);
                    }
                    i += 1;
                }
                proof {
                    assert(before.subrange(0, before.len() as int) == before);
                }
                self.output_stack = kept;
            }
            OutputValue::On(velocity) => {
                let velocity = map_velocity(&self.velocity_map, velocity);
                self.outbox.push(MidiMessage::Three(144 + channel - 1, note_id, velocity));
                self.output_values.insert(id, (note_id, velocity));
                let n = self.output_stack.len();
                if n > 0 {
                    let last = self.output_stack[n - 1];
                    if let Some(last_note) = self.output_values.get(&last) {
                        self.outbox.push(MidiMessage::Three(128 + channel - 1, last_note.0, 0));
                    }
                }
                self.output_stack.push(id);
            }
        }
    }

    /// The clock moved on: when the sounding key's note changed (to `new_note_id`, looked
    /// up by the caller for the key on top), the new note starts and the old one stops.
    pub fn on_tick(&mut self, new_note_id: u8)
        requires
            1 <= old(self).channel() <= 16,
        ensures
            final(self).channel() == old(self).channel(),
            final(self).octave() == old(self).octave(),
            final(self).velocities() == old(self).velocities(),
            final(self).stack() == old(self).stack(),
            ({
                let ch = old(self).channel() as int;
                let stack = old(self).stack();
                if stack.len() > 0 && old(self).held().contains_key(stack.last())
                    && old(self).held()[stack.last()].0 != new_note_id {
                    let (note_id, velocity) = old(self).held()[stack.last()];
                    &&& final(self).messages() == old(self).messages()
                        .push(MidiMessage::Three((143 + ch) as u8, new_note_id, velocity))
                        .push(MidiMessage::Three((143 + ch) as u8, note_id, 0))
                    &&& final(self).held() == old(self).held().insert(stack.last(), (new_note_id, velocity))
                } else {
                    &&& final(self).messages() == old(self).messages()
                    &&& final(self).held() == old(self).held()
                }
            }),
    {
        broadcast use vstd::std_specs::hash::group_hash_axioms;
        let channel = self.midi_channel;
        let n = self.output_stack.len();
        if n > 0 {
            let id = self.output_stack[n - 1];
            if let Some(held) = self.output_values.get(&id) {
                let (note_id, velocity) = *held;
                if note_id != new_note_id {
                    self.outbox.push(MidiMessage::Three(144 + channel - 1, new_note_id, velocity));
                    self.outbox.push(MidiMessage::Three(144 + channel - 1, note_id, 0));
                    self.output_values.insert(id, (new_note_id, velocity));
                }
            }
        }
    }

    /// Hands out the messages to send, oldest first.
    pub fn take_messages(&mut self) -> (r: Vec<MidiMessage>)
        ensures
            r@ == old(self).messages(),
            final(self).messages() == Seq::<MidiMessage>::empty(),
            final(self).channel() == old(self).channel(),
            final(self).octave() == old(self).octave(),
            final(self).held() == old(self).held(),
            final(self).stack() == old(self).stack(),
            final(self).velocities() == old(self).velocities(),
    {
        let mut taken: Vec<MidiMessage> = Vec::new();
        std::mem::swap(&mut taken, &mut self.outbox);
        taken
    }
}

} // verus!
