use vstd::prelude::*;

use crate::devices::MidiMessage;
use crate::output_value::OutputValue;
use std::collections::HashMap;

verus! {

/// A simple keyboard part: a press plays the note the scale gives the key (looked up by
/// the caller) and remembers it; a release sends that note again at zero velocity.
pub struct MidiKeys {
    midi_channel: u8,
    output_values: HashMap<u32, u8>,
    outbox: Vec<MidiMessage>,
}

impl MidiKeys {
    /// The channel played (1 to 16).
    pub closed spec fn channel(&self) -> u8 {
        self.midi_channel
    }

    /// The note each sounding key plays.
    pub closed spec fn held(&self) -> Map<u32, u8> {
        self.output_values@
    }

    /// The messages to send, oldest first.
    pub closed spec fn messages(&self) -> Seq<MidiMessage> {
        self.outbox@
    }

    /// A part on `channel` (1 to 16) with nothing sounding.
    pub fn new(channel: u8) -> (r: MidiKeys)
        ensures
            r.channel() == channel,
            r.held().is_empty(),
            r.messages() == Seq::<MidiMessage>::empty(),
    {
        MidiKeys { midi_channel: channel, output_values: HashMap::new(), outbox: Vec::new() }
    }

    /// Key `id` changed value; `note_id` is the note the scale gives it. A message goes out
    /// on status `143 + channel`: the channel is at most 111.
    pub fn note(&mut self, id: u32, value: OutputValue, note_id: u8)
        requires
            value is On || old(self).held().contains_key(id) ==> old(self).channel() <= 111,
        ensures
            final(self).channel() == old(self).channel(),
            match value {
                OutputValue::Off => if old(self).held().contains_key(id) {
                    &&& final(self).messages() == old(self).messages().push(
                        MidiMessage::Three((143 + old(self).channel()) as u8, old(self).held()[id], 0))
                    &&& final(self).held() == old(self).held().remove(id)
                } else {
                    &&& final(self).messages() == old(self).messages()
                    &&& final(self).held() == old(self).held()
                },
                OutputValue::On(velocity) => {
                    &&& final(self).messages() == old(self).messages().push(
                        MidiMessage::Three((143 + old(self).channel()) as u8, note_id, velocity))
                    &&& final(self).held() == old(self).held().insert(id, note_id)
                },
            },
    {
        broadcast use vstd::std_specs::hash::group_hash_axioms;
        match value {
            OutputValue::Off => {
                if let Some(note) = self.output_values.get(&id) {
                    let note = *note;
                    self.outbox.push(MidiMessage::Three(144 + self.midi_channel - 1, note, 0));
                    self.output_values.remove(&id);
                }
            },
            OutputValue::On(velocity) => {
                self.outbox.push(MidiMessage::Three(144 + self.midi_channel - 1, note_id, velocity));
                self.output_values.insert(id, note_id);
            },
        }
    }

    /// Hands out the messages to send, oldest first.
    pub fn take_messages(&mut self) -> (r: Vec<MidiMessage>)
        ensures
            r@ == old(self).messages(),
            final(self).messages() == Seq::<MidiMessage>::empty(),
            final(self).channel() == old(self).channel(),
            final(self).held() == old(self).held(),
    {
        let mut taken: Vec<MidiMessage> = Vec::new();
        std::mem::swap(&mut taken, &mut self.outbox);
        taken
    }
}

} // verus!
