use vstd::prelude::*;

use crate::controllers::{bend_bytes, polar_bend_position, polar_position, position_bytes};
use crate::devices::cc_slicer::byte_or_zero;
use crate::devices::{map_velocity, map_view, spec_map_velocity, velocity_map_defined, MidiMessage};
use crate::midi_time::MidiTime;
use crate::output_value::OutputValue;
use std::collections::HashMap;

verus! {

/// The slice a trigger plays, counted from the first slice note. The first and last
/// triggers play the start and end offsets; the others spread between them by their own
/// offset (0..127 across the range, rounded down). When the end is not past the start,
/// the triggers play consecutive slices from the start (stopping at 255).
pub open spec fn slice_for(id: u32, trigger_count: u32, offsets: Map<u32, u8>) -> int {
    let start = byte_or_zero(offsets, 0) as int;
    let end = byte_or_zero(offsets, (trigger_count - 1) as u32) as int;
    if end <= start {
        let v = start + (id % 256) as int;
        if v > 255 { 255 } else { v }
    } else if id == 0 {
        start
    } else if id == trigger_count - 1 {
        end
    } else {
        start + (end - start) * (byte_or_zero(offsets, id) as int) / 127
    }
}

/// The note a slice plays: the first slice note plus the slice, at most 127.
pub open spec fn slice_note(start_trigger_id: u8, slice: int) -> u8 {
    let n = start_trigger_id as int + slice;
    (if n > 127 { 127 } else { n }) as u8
}

/// A slicer whose triggers play notes spread over the slice range set by the first and
/// last triggers' offsets, each bent by its pitch.
pub struct MidiSlicer {
    midi_channel: u8,
    last_pos: MidiTime,
    velocity_map: Option<Vec<u8>>,
    output_values: HashMap<u32, (u8, u8, u8)>,
    trigger_count: u32,
    start_trigger_id: u8,
    outbox: Vec<MidiMessage>,
}

impl MidiSlicer {
    /// The clock position last reported.
    pub closed spec fn position(&self) -> MidiTime {
        self.last_pos
    }

    /// The channel played.
    pub closed spec fn channel(&self) -> u8 {
        self.midi_channel
    }

    /// How many triggers the slicer has.
    pub closed spec fn triggers(&self) -> u32 {
        self.trigger_count
    }

    /// The note of the first slice.
    pub closed spec fn first_note(&self) -> u8 {
        self.start_trigger_id
    }

    /// Channel, note and velocity of each sounding trigger.
    pub closed spec fn sounding(&self) -> Map<u32, (u8, u8, u8)> {
        self.output_values@
    }

    /// The messages to send, oldest first.
    pub closed spec fn messages(&self) -> Seq<MidiMessage> {
        self.outbox@
    }

    /// The optional velocity map.
    pub closed spec fn velocities(&self) -> Option<Seq<u8>> {
        map_view(&self.velocity_map)
    }

    /// Every sounding note is on a channel whose note status fits a byte.
    pub closed spec fn well_formed(&self) -> bool {
        &&& 1 <= self.midi_channel <= 16
        &&& self.trigger_count >= 1
        &&& forall|id: u32| #[trigger] self.output_values@.contains_key(id) ==> 1 <= self.output_values@[id].0 <= 16
    }

    /// A slicer of `trigger_count` triggers on `channel` (1 to 16), slices counted from
    /// note `start_trigger_id`.
    pub fn new(channel: u8, start_trigger_id: u8, trigger_count: u32, velocity_map: Option<Vec<u8>>) -> (r: MidiSlicer)
        requires
            1 <= channel <= 16,
            trigger_count >= 1,
        ensures
            r.well_formed(),
            r.channel() == channel,
            r.triggers() == trigger_count,
            r.first_note() == start_trigger_id,
            r.sounding().is_empty(),
            r.messages() == Seq::<MidiMessage>::empty(),
            r.velocities() == map_view(&velocity_map),
            r.position()@ == 0,
    {
        MidiSlicer {
            start_trigger_id,
            trigger_count,
            last_pos: MidiTime::zero(),
            midi_channel: channel,
            output_values: HashMap::new(),
            velocity_map,
            outbox: Vec::new(),
        }
    }

    /// The clock moved on.
    pub fn on_tick(&mut self, time: MidiTime)
        requires
            old(self).well_formed(),
        ensures
            final(self).well_formed(),
            final(self).channel() == old(self).channel(),
            final(self).triggers() == old(self).triggers(),
            final(self).first_note() == old(self).first_note(),
            final(self).sounding() == old(self).sounding(),
            final(self).messages() == old(self).messages(),
            final(self).velocities() == old(self).velocities(),
            final(self).position() == time,
    {
        self.last_pos = time;
    }

    /// Plays a trigger: a press sends its slice's note with the mapped velocity, then its
    /// pitch as a bend (both looked up in the slicer's offsets and pitches, 0 when
    /// missing); a release ends the note it sounds.
    pub fn trigger(&mut self, id: u32, value: OutputValue, pitches: &HashMap<u32, u8>, offsets: &HashMap<u32, u8>)
        requires
            old(self).well_formed(),
            value matches OutputValue::On(v) ==> velocity_map_defined(old(self).velocities(), v),
            forall|k: u32| #[trigger] offsets@.contains_key(k) ==> offsets@[k] <= 127,
        ensures
            final(self).well_formed(),
            final(self).channel() == old(self).channel(),
            final(self).triggers() == old(self).triggers(),
            final(self).first_note() == old(self).first_note(),
            final(self).velocities() == old(self).velocities(),
            match value {
                OutputValue::Off => {
                    &&& final(self).sounding() == old(self).sounding().remove(id)
                    &&& final(self).messages() == if old(self).sounding().contains_key(id) {
                        let (channel, note, _) = old(self).sounding()[id];
                        old(self).messages().push(MidiMessage::Three((143 + channel) as u8, note, 0))
                    } else {
                        old(self).messages()
                    }
                },
                OutputValue::On(v) => {
                    let ch = old(self).channel();
                    let note = slice_note(old(self).first_note(), slice_for(id, old(self).triggers(), offsets@));
                    let velocity = spec_map_velocity(old(self).velocities(), v);
                    let (lsb, msb) = position_bytes(polar_bend_position(byte_or_zero(pitches@, id) as int));
                    &&& final(self).messages() == old(self).messages()
                        .push(MidiMessage::Three((143 + ch) as u8, note, velocity))
                        .push(MidiMessage::Three((223 + ch) as u8, lsb, msb))
                    &&& final(self).sounding() == old(self).sounding().insert(id, (ch, note, velocity))
                },
            },
    {
        broadcast use vstd::std_specs::hash::group_hash_axioms;
        match value {
            OutputValue::Off => {
                if let Some(sounding) = self.output_values.get(&id) {
                    let (channel, note_id, _) = *sounding;
                    self.outbox.push(MidiMessage::Three(144 - 1 + channel, note_id, 0));
                }
                self.output_values.remove(&id);
            }
            OutputValue::On(velocity) => {
                let midi_pitch = match pitches.get(&id) {
                    Some(p) => *p,
                    None => 0,
                };
                let start = match offsets.get(&0) {
                    Some(s) => *s,
                    None => 0,
                };
                let end = match offsets.get(&(self.trigger_count - 1)) {
                    Some(e) => *e,
                    None => 0,
                };
                let all_together = end <= start;
                let value = if all_together {
                    start.saturating_add(id as u8)
                } else if id == 0 {
                    start
                } else if id == self.trigger_count - 1 {
                    end
                } else {
                    let range = end - start;
                    let midi_val = match offsets.get(&id) {
                        Some(m) => *m,
                        None => 0,
                    };
                    assert(range as int * midi_val as int / 127 <= range) by (nonlinear_arith)
                        requires
                            midi_val <= 127,
                    ;
                    start + ((range as u32 * midi_val as u32) / 127) as u8
                };
                proof {
                    assert((id as u8) as int == (id % 256) as int) by (bit_vector);
                }
                let channel = self.midi_channel;
                let sum = self.start_trigger_id.saturating_add(value);
                let note_id = if sum > 127 { 127 } else { sum };
                let mapped_velocity = map_velocity(&self.velocity_map, velocity);
                let (lsb, msb) = bend_bytes(polar_position(midi_pitch));
                self.outbox.push(MidiMessage::Three(144 - 1 + channel, note_id, mapped_velocity));
                self.outbox.push(MidiMessage::Three(224 - 1 + channel, lsb, msb));
                self.output_values.insert(id, (channel, note_id, mapped_velocity));
            }
        }
    }

    /// Hands out the messages to send, oldest first.
    pub fn take_messages(&mut self) -> (r: Vec<MidiMessage>)
        requires
            old(self).well_formed(),
        ensures
            r@ == old(self).messages(),
            final(self).messages() == Seq::<MidiMessage>::empty(),
            final(self).well_formed(),
            final(self).channel() == old(self).channel(),
            final(self).triggers() == old(self).triggers(),
            final(self).first_note() == old(self).first_note(),
            final(self).sounding() == old(self).sounding(),
            final(self).velocities() == old(self).velocities(),
    {
        let mut taken: Vec<MidiMessage> = Vec::new();
        std::mem::swap(&mut taken, &mut self.outbox);
        taken
    }
}

} // verus!
