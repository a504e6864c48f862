use vstd::prelude::*;

use crate::devices::MidiMessage;
use crate::midi_keys::MidiKeys;
use crate::output_value::OutputValue;

verus! {

/// The Volca Keys played as a keyboard (the notes come from the scale, looked up by the
/// caller).
pub struct VolcaKeys {
    midi_keys: MidiKeys,
}

impl VolcaKeys {
    /// The keyboard part that plays the synthesizer.
    pub closed spec fn keys(&self) -> MidiKeys {
        self.midi_keys
    }

    /// Plays on `channel` (1 to 16), nothing sounding.
    pub fn new(channel: u8) -> (r: VolcaKeys)
        ensures
            r.keys().channel() == channel,
            r.keys().held().is_empty(),
            r.keys().messages() == Seq::<MidiMessage>::empty(),
    {
        VolcaKeys { midi_keys: MidiKeys::new(channel) }
    }

    /// A key changed value; `note_id` is the note the scale gives it.
    pub fn trigger(&mut self, id: u32, value: OutputValue, note_id: u8)
        requires
            1 <= old(self).keys().channel() <= 16,
        ensures
            final(self).keys().channel() == old(self).keys().channel(),
            match value {
                OutputValue::Off => if old(self).keys().held().contains_key(id) {
                    &&& final(self).keys().messages() == old(self).keys().messages().push(
                        MidiMessage::Three((143 + old(self).keys().channel()) as u8, old(self).keys().held()[id], 0))
                    &&& final(self).keys().held() == old(self).keys().held().remove(id)
                } else {
                    &&& final(self).keys().messages() == old(self).keys().messages()
                    &&& final(self).keys().held() == old(self).keys().held()
                },
                OutputValue::On(velocity) => {
                    &&& final(self).keys().messages() == old(self).keys().messages().push(
                        MidiMessage::Three((143 + old(self).keys().channel()) as u8, note_id, velocity))
                    &&& final(self).keys().held() == old(self).keys().held().insert(id, note_id)
                },
            },
    {
        self.midi_keys.note(id, value, note_id);
    }

    /// Hands out the messages to send, oldest first.
    pub fn take_messages(&mut self) -> (r: Vec<MidiMessage>)
        ensures
            r@ == old(self).keys().messages(),
            final(self).keys().messages() == Seq::<MidiMessage>::empty(),
            final(self).keys().channel() == old(self).keys().channel(),
            final(self).keys().held() == old(self).keys().held(),
    {
        self.midi_keys.take_messages()
    }
}

} // verus!
