use vstd::prelude::*;

use super::note_book::NoteBook;
use super::{channel_fits, status, MidiMessage};
use crate::output_value::OutputValue;

verus! {

/// The note of a slice: 36 above the trigger id (taken as a byte).
pub open spec fn slice_note(id: u32) -> u8 {
    ((id % 256) + 36) as u8
}

fn slice_note_exec(id: u32) -> (r: u8)
    requires
        (id % 256) + 36 <= 255,
    ensures
        r == slice_note(id),
{
    (id % 256) as u8 + 36
}

/// Plays slices on a Blackbox: trigger `id` plays note `36 + id`; a release sends a
/// zero-velocity note-on for the note the press sent.
pub struct BlackboxSlicer {
    midi_channel: u8,
    book: NoteBook,
}

impl BlackboxSlicer {
    #[verifier::type_invariant]
    spec fn inv(&self) -> bool {
        channel_fits(144, self.midi_channel as int) && self.book.well_formed()
    }

    pub closed spec fn channel(&self) -> u8 {
        self.midi_channel
    }

    pub closed spec fn held(&self) -> Map<u32, (u8, u8, u8)> {
        self.book.held()
    }

    pub closed spec fn sent(&self) -> Seq<MidiMessage> {
        self.book.sent()
    }

    pub fn new(channel: u8) -> (r: BlackboxSlicer)
        requires
            channel_fits(144, channel as int),
        ensures
            r.channel() == channel,
            r.held() == Map::<u32, (u8, u8, u8)>::empty(),
            r.sent() == Seq::<MidiMessage>::empty(),
    {
        BlackboxSlicer { midi_channel: channel, book: NoteBook::new() }
    }

    /// Hands out the messages produced so far.
    pub fn take_messages(&mut self) -> (r: Vec<MidiMessage>)
        ensures
            r@ == old(self).sent(),
            final(self).sent() == Seq::<MidiMessage>::empty(),
            final(self).held() == old(self).held(),
            final(self).channel() == old(self).channel(),
    {
        proof {
            use_type_invariant(&*self);
        }
        let mut book = NoteBook::new();
        std::mem::swap(&mut book, &mut self.book);
        let r = book.take_messages();
        self.book = book;
        r
    }
}

impl BlackboxSlicer {
    /// A trigger changed value.
    pub fn trigger(&mut self, id: u32, value: OutputValue)
        requires
            value is On ==> (id % 256) + 36 <= 255,
        ensures
            final(self).channel() == old(self).channel(),
            match value {
                OutputValue::Off => if old(self).held().contains_key(id) {
                    &&& final(self).sent() == old(self).sent().push(MidiMessage::Three(
                        status(144, old(self).held()[id].0 as int) as u8, old(self).held()[id].1, 0))
                    &&& final(self).held() == old(self).held().remove(id)
                } else {
                    final(self).sent() == old(self).sent() && final(self).held() == old(self).held()
                },
                OutputValue::On(velocity) => {
                    &&& final(self).sent() == old(self).sent().push(MidiMessage::Three(
                        status(144, old(self).channel() as int) as u8, slice_note(id), velocity))
                    &&& final(self).held() == old(self).held().insert(id, (old(self).channel(), slice_note(id), velocity))
                },
            },
    {
        proof {
            use_type_invariant(&*self);
        }
        let mut book = NoteBook::new();
        std::mem::swap(&mut book, &mut self.book);
        match value {
            OutputValue::Off => {
                book.release(id, 144);
            },
            OutputValue::On(velocity) => {
                let channel = self.midi_channel;
                let note_id = slice_note_exec(id);
                book.press(id, channel, note_id, velocity);
            },
        }
        self.book = book;
    }
}


} // verus!
