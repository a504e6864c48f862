use vstd::prelude::*;

use super::{channel_fits, status, MidiMessage};
use crate::chunk::ScheduleMode;
use crate::output_value::OutputValue;
use std::collections::HashMap;

verus! {

/// The channel a pad plays on: the device's channel for the first five banks, the next
/// channel for the rest.
pub open spec fn pad_channel(channel: u8, offset: usize) -> u8 {
    if offset < 5 {
        channel
    } else {
        (channel + 1) as u8
    }
}

/// The pad note for a trigger: bank row `offset % 5` (twelve notes each) above 47, plus
/// the trigger's place; the sum is taken as a byte.
pub open spec fn pad_note(id: u32, start: u32, offset: usize) -> u8 {
    ((47 + (offset % 5) * 12 + id + start) % 256) as u8
}

/// The velocity of a pad: the one the velocity controls hold for the trigger, else 80.
pub open spec fn pad_velocity(id: u32, velocities: Map<u32, u8>) -> u8 {
    if velocities.contains_key(id) {
        velocities[id]
    } else {
        80
    }
}

/// Plays pads of an SP-404; each press chokes the pad played before.
pub struct SP404 {
    last_value: Option<(u8, u8, u8)>,
    start: u32,
    midi_channel: u8,
    outbox: Vec<MidiMessage>,
}

impl SP404 {
    #[verifier::type_invariant]
    spec fn inv(&self) -> bool {
        &&& channel_fits(144, self.midi_channel as int + 1)
        &&& self.midi_channel >= 1
        &&& self.last_value matches Some(v) ==> channel_fits(144, v.0 as int)
    }

    pub closed spec fn channel(&self) -> u8 {
        self.midi_channel
    }

    pub closed spec fn start(&self) -> u32 {
        self.start
    }

    /// The pad last played: (channel, note, velocity).
    pub closed spec fn last_value(&self) -> Option<(u8, u8, u8)> {
        self.last_value
    }

    pub closed spec fn sent(&self) -> Seq<MidiMessage> {
        self.outbox@
    }

    pub fn new(midi_channel: u8, start: u32) -> (r: SP404)
        requires
            1 <= midi_channel,
            channel_fits(144, midi_channel as int + 1),
        ensures
            r.channel() == midi_channel,
            r.start() == start,
            r.last_value() is None,
            r.sent() == Seq::<MidiMessage>::empty(),
    {
        SP404 { last_value: None, start, midi_channel, outbox: Vec::new() }
    }

    /// A trigger changed value, with the bank offset and pad velocities the controls hold.
    pub fn trigger(&mut self, id: u32, value: OutputValue, offset: usize, velocities: &HashMap<u32, u8>)
        requires
            id + old(self).start() + 95 <= usize::MAX,
            id + old(self).start() <= u32::MAX,
        ensures
            final(self).channel() == old(self).channel(),
            final(self).start() == old(self).start(),
            match value {
                OutputValue::Off => final(self).sent() == old(self).sent() && final(self).last_value() == old(self).last_value(),
                OutputValue::On(_) => {
                    let channel = pad_channel(old(self).channel(), offset);
                    let note = pad_note(id, old(self).start(), offset);
                    let velocity = pad_velocity(id, velocities@);
                    let choked = match old(self).last_value() {
                        Some(v) => old(self).sent().push(MidiMessage::Three(status(128, v.0 as int) as u8, v.1, 0)),
                        None => old(self).sent(),
                    };
                    &&& final(self).last_value() == Some((channel, note, velocity))
                    &&& final(self).sent() == choked.push(MidiMessage::Three(status(144, channel as int) as u8, note, velocity))
                },
            },
    {
        broadcast use vstd::std_specs::hash::group_hash_axioms;
        proof {
            use_type_invariant(&*self);
        }
        match value {
            OutputValue::Off => {},
            OutputValue::On(_) => {
                let velocity = match velocities.get(&id) {
                    Some(v) => *v,
                    None => 80,
                };
                let channel = if offset < 5 { self.midi_channel } else { self.midi_channel + 1 };
                let note_id = ((47 + ((offset % 5) * 12) + ((id + self.start) as usize)) % 256) as u8;
                let mut outbox: Vec<MidiMessage> = Vec::new();
                std::mem::swap(&mut outbox, &mut self.outbox);
                if let Some((last_channel, last_note, _)) = self.last_value {
                    outbox.push(MidiMessage::Three(128 - 1 + last_channel, last_note, 0));
                }
                self.last_value = Some((channel, note_id, velocity));
                outbox.push(MidiMessage::Three(144 - 1 + channel, note_id, velocity));
                self.outbox = outbox;
            },
        }
    }

    /// Hands out the messages produced so far.
    pub fn take_messages(&mut self) -> (r: Vec<MidiMessage>)
        ensures
            r@ == old(self).sent(),
            final(self).sent() == Seq::<MidiMessage>::empty(),
            final(self).last_value() == old(self).last_value(),
            final(self).channel() == old(self).channel(),
            final(self).start() == old(self).start(),
    {
        proof {
            use_type_invariant(&*self);
        }
        let mut out: Vec<MidiMessage> = Vec::new();
        std::mem::swap(&mut out, &mut self.outbox);
        out
    }

    pub fn schedule_mode(&self) -> (r: ScheduleMode)
        ensures
            r == ScheduleMode::Percussion,
    {
        ScheduleMode::Percussion
    }
}

} // verus!
