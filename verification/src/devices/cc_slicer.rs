use vstd::prelude::*;

use crate::controllers::{bend_bytes, polar_bend_position, polar_position, position_bytes};
use crate::devices::{map_velocity, map_view, spec_map_velocity, velocity_map_defined, MidiMessage};
use crate::midi_time::MidiTime;
use crate::output_value::OutputValue;
use std::collections::HashMap;
use std::collections::HashSet;

verus! {

/// The value a map holds for a key, or 0.
pub open spec fn byte_or_zero(m: Map<u32, u8>, k: u32) -> u8 {
    if m.contains_key(k) { m[k] } else { 0 }
}

/// A slicer played through one note: each press sets the slice by a controller and the
/// pitch by a bend, then (re)starts the note; the note stops when the last held trigger
/// is released.
pub struct CcSlicer {
    midi_channel: u8,
    cc: u8,
    last_pos: MidiTime,
    velocity_map: Option<Vec<u8>>,
    active_ids: HashSet<u32>,
    outbox: Vec<MidiMessage>,
}

/// The note every slice plays.
pub const SLICE_NOTE: u8 = 60;

impl CcSlicer {
    /// The clock position last reported.
    pub closed spec fn position(&self) -> MidiTime {
        self.last_pos
    }

    /// The channel played.
    pub closed spec fn channel(&self) -> u8 {
        self.midi_channel
    }

    /// The triggers held.
    pub closed spec fn active(&self) -> Set<u32> {
        self.active_ids@
    }

    /// The messages to send, oldest first.
    pub closed spec fn messages(&self) -> Seq<MidiMessage> {
        self.outbox@
    }

    /// The optional velocity map.
    pub closed spec fn velocities(&self) -> Option<Seq<u8>> {
        map_view(&self.velocity_map)
    }

    /// The controller that selects the slice.
    pub closed spec fn controller(&self) -> u8 {
        self.cc
    }

    /// A slicer on `channel` whose slice is chosen by controller `cc`.
    pub fn new(channel: u8, cc: u8, velocity_map: Option<Vec<u8>>) -> (r: CcSlicer)
        ensures
            r.channel() == channel,
            r.controller() == cc,
            r.active().is_empty(),
            r.messages() == Seq::<MidiMessage>::empty(),
            r.velocities() == map_view(&velocity_map),
            r.position()@ == 0,
    {
        CcSlicer {
            cc,
            last_pos: MidiTime::zero(),
            midi_channel: channel,
            active_ids: HashSet::new(),
            velocity_map,
            outbox: Vec::new(),
        }
    }

    /// The clock moved on.
    pub fn on_tick(&mut self, time: MidiTime)
        ensures
            final(self).channel() == old(self).channel(),
            final(self).controller() == old(self).controller(),
            final(self).active() == old(self).active(),
            final(self).messages() == old(self).messages(),
            final(self).velocities() == old(self).velocities(),
            final(self).position() == time,
    {
        self.last_pos = time;
    }

    /// Plays a trigger. A press sends the trigger's slice on the controller and its pitch
    /// as a bend (both looked up for the trigger, 0 when missing), chokes the note when
    /// another trigger holds it, and starts the note with the mapped velocity. A release
    /// of a held trigger stops the note once no trigger is held.
    pub fn trigger(&mut self, id: u32, value: OutputValue, pitches: &HashMap<u32, u8>, offsets: &HashMap<u32, u8>)
        requires
            old(self).channel() <= 32,
            value matches OutputValue::On(v) ==> velocity_map_defined(old(self).velocities(), v),
        ensures
            final(self).channel() == old(self).channel(),
            final(self).controller() == old(self).controller(),
            final(self).velocities() == old(self).velocities(),
            final(self).position() == old(self).position(),
            ({
                let ch = old(self).channel() as int;
                match value {
                    OutputValue::Off => {
                        &&& final(self).active() == old(self).active().remove(id)
                        &&& final(self).messages() == if old(self).active().contains(id) && old(self).active().remove(id).is_empty() {
                            old(self).messages().push(MidiMessage::Three((143 + ch) as u8, SLICE_NOTE, 0))
                        } else {
                            old(self).messages()
                        }
                    },
                    OutputValue::On(v) => {
                        let (lsb, msb) = position_bytes(polar_bend_position(byte_or_zero(pitches@, id) as int));
                        let setup = old(self).messages()
                            .push(MidiMessage::Three((175 + ch) as u8, old(self).controller(), byte_or_zero(offsets@, id)))
                            .push(MidiMessage::Three((223 + ch) as u8, lsb, msb));
                        let choked = if old(self).active().is_empty() {
                            setup
                        } else {
                            setup.push(MidiMessage::Three((143 + ch) as u8, SLICE_NOTE, 0))
                        };
                        &&& final(self).messages() == choked.push(MidiMessage::Three(
                            (143 + ch) as u8,
                            SLICE_NOTE,
                            spec_map_velocity(old(self).velocities(), v),
                        ))
                        &&& final(self).active() == old(self).active().insert(id)
                    },
                }
            }),
    {
        broadcast use vstd::std_specs::hash::group_hash_axioms;
        let channel = self.midi_channel;
        let note_id = SLICE_NOTE;
        match value {
            OutputValue::Off => {
                if self.active_ids.remove(&id) {
                    if self.active_ids.is_empty() {
                        self.outbox.push(MidiMessage::Three(144 - 1 + channel, note_id, 0));
                    }
                }
            }
            OutputValue::On(velocity) => {
                let midi_pitch = match pitches.get(&id) {
                    Some(p) => *p,
                    None => 0,
                };
                let cc_val = match offsets.get(&id) {
                    Some(o) => *o,
                    None => 0,
                };
                let mapped_velocity = map_velocity(&self.velocity_map, velocity);
                let (lsb, msb) = bend_bytes(polar_position(midi_pitch));
                self.outbox.push(MidiMessage::Three(176 - 1 + channel, self.cc, cc_val));
                self.outbox.push(MidiMessage::Three(224 - 1 + channel, lsb, msb));
                if !self.active_ids.is_empty() {
                    self.outbox.push(MidiMessage::Three(144 - 1 + channel, note_id, 0));
                }
                self.outbox.push(MidiMessage::Three(144 - 1 + channel, note_id, mapped_velocity));
                self.active_ids.insert(id);
            }
        }
    }

    /// Hands out the messages to send, oldest first.
    pub fn take_messages(&mut self) -> (r: Vec<MidiMessage>)
        ensures
            r@ == old(self).messages(),
            final(self).messages() == Seq::<MidiMessage>::empty(),
            final(self).channel() == old(self).channel(),
            final(self).controller() == old(self).controller(),
            final(self).active() == old(self).active(),
            final(self).velocities() == old(self).velocities(),
    {
        let mut taken: Vec<MidiMessage> = Vec::new();
        std::mem::swap(&mut taken, &mut self.outbox);
        taken
    }
}

} // verus!
