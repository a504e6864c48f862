use vstd::prelude::*;

use super::note_book::NoteBook;
use super::{channel_fits, status, MidiMessage};
use crate::output_value::OutputValue;

verus! {

/// The instrument notes of the TR-08, by trigger.
pub open spec fn tr08_note(id: u32) -> u8 {
    seq![36u8, 38, 42, 46, 43, 39, 70, 49, 47, 37, 75, 56, 50, 64, 63, 62][id as int]
}

/// The TR-08's notes by trigger: 36, 38, 42, 46; 43, 39, 70, 49; 47, 37, 75, 56; 50, 64,
/// 63, 62.
pub proof fn law_tr08_instruments()
    ensures
        tr08_note(0) == 36 && tr08_note(1) == 38 && tr08_note(2) == 42 && tr08_note(3) == 46,
        tr08_note(4) == 43 && tr08_note(5) == 39 && tr08_note(6) == 70 && tr08_note(7) == 49,
        tr08_note(8) == 47 && tr08_note(9) == 37 && tr08_note(10) == 75 && tr08_note(11) == 56,
        tr08_note(12) == 50 && tr08_note(13) == 64 && tr08_note(14) == 63 && tr08_note(15) == 62,
{
}

fn tr08_note_exec(id: u32) -> (r: u8)
    requires
        id < 16,
    ensures
        r == tr08_note(id),
{
    let map: [u8; 16] = [36, 38, 42, 46, 43, 39, 70, 49, 47, 37, 75, 56, 50, 64, 63, 62];
    proof {
        assert(map@ =~= seq![36u8, 38, 42, 46, 43, 39, 70, 49, 47, 37, 75, 56, 50, 64, 63, 62]);
    }
    map[id as usize]
}

/// Plays the TR-08 drum machine: each of the sixteen triggers plays its instrument's
/// note; a release sends a note-off for the note the press sent.
pub struct TR08 {
    midi_channel: u8,
    book: NoteBook,
}

impl TR08 {
    #[verifier::type_invariant]
    spec fn inv(&self) -> bool {
        channel_fits(144, self.midi_channel as int) && self.book.well_formed()
    }

    pub closed spec fn channel(&self) -> u8 {
        self.midi_channel
    }

    pub closed spec fn held(&self) -> Map<u32, (u8, u8, u8)> {
        self.book.held()
    }

    pub closed spec fn sent(&self) -> Seq<MidiMessage> {
        self.book.sent()
    }

    pub fn new(channel: u8) -> (r: TR08)
        requires
            channel_fits(144, channel as int),
        ensures
            r.channel() == channel,
            r.held() == Map::<u32, (u8, u8, u8)>::empty(),
            r.sent() == Seq::<MidiMessage>::empty(),
    {
        TR08 { midi_channel: channel, book: NoteBook::new() }
    }

    /// Hands out the messages produced so far.
    pub fn take_messages(&mut self) -> (r: Vec<MidiMessage>)
        ensures
            r@ == old(self).sent(),
            final(self).sent() == Seq::<MidiMessage>::empty(),
            final(self).held() == old(self).held(),
            final(self).channel() == old(self).channel(),
    {
        proof {
            use_type_invariant(&*self);
        }
        let mut book = NoteBook::new();
        std::mem::swap(&mut book, &mut self.book);
        let r = book.take_messages();
        self.book = book;
        r
    }
}

impl TR08 {
    /// A trigger changed value.
    pub fn trigger(&mut self, id: u32, value: OutputValue)
        requires
            value is On ==> id < 16,
        ensures
            final(self).channel() == old(self).channel(),
            match value {
                OutputValue::Off => if old(self).held().contains_key(id) {
                    &&& final(self).sent() == old(self).sent().push(MidiMessage::Three(
                        status(128, old(self).held()[id].0 as int) as u8, old(self).held()[id].1, 0))
                    &&& final(self).held() == old(self).held().remove(id)
                } else {
                    final(self).sent() == old(self).sent() && final(self).held() == old(self).held()
                },
                OutputValue::On(velocity) => {
                    &&& final(self).sent() == old(self).sent().push(MidiMessage::Three(
                        status(144, old(self).channel() as int) as u8, tr08_note(id), velocity))
                    &&& final(self).held() == old(self).held().insert(id, (old(self).channel(), tr08_note(id), velocity))
                },
            },
    {
        proof {
            use_type_invariant(&*self);
        }
        let mut book = NoteBook::new();
        std::mem::swap(&mut book, &mut self.book);
        match value {
            OutputValue::Off => {
                book.release(id, 128);
            },
            OutputValue::On(velocity) => {
                let channel = self.midi_channel;
                let note_id = tr08_note_exec(id);
                book.press(id, channel, note_id, velocity);
            },
        }
        self.book = book;
    }
}


} // verus!
