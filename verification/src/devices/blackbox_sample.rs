use vstd::prelude::*;

use super::note_book::NoteBook;
use super::{channel_fits, status, MidiMessage};
use crate::chunk::{LatchMode, Triggerable};
use crate::output_value::OutputValue;

verus! {

/// The pad notes of the sampler, by trigger (cycling every eight).
pub open spec fn sample_note(id: u32) -> u8 {
    seq![48u8, 49, 50, 51, 44, 45, 46, 47][(id % 8) as int]
}

/// The sample pads cycle every eight triggers: the first four play notes 48 to 51 and the
/// next four notes 44 to 47.
pub proof fn law_sample_pads(id: u32)
    ensures
        id % 8 < 4 ==> sample_note(id) == 48 + id % 8,
        id % 8 >= 4 ==> sample_note(id) == 40 + id % 8,
{
}

fn sample_note_exec(id: u32) -> (r: u8)
    ensures
        r == sample_note(id),
{
    match id % 8 {
        0 => 48,
        1 => 49,
        2 => 50,
        3 => 51,
        4 => 44,
        5 => 45,
        6 => 46,
        _ => 47,
    }
}

/// Plays samples on a Blackbox: a press sends the trigger's pad note, a release sends a
/// zero-velocity note-on for the note the press sent.
pub struct BlackboxSample {
    midi_channel: u8,
    book: NoteBook,
}

impl BlackboxSample {
    #[verifier::type_invariant]
    spec fn inv(&self) -> bool {
        channel_fits(144, self.midi_channel as int) && self.book.well_formed()
    }

    pub closed spec fn channel(&self) -> u8 {
        self.midi_channel
    }

    pub closed spec fn held(&self) -> Map<u32, (u8, u8, u8)> {
        self.book.held()
    }

    pub closed spec fn sent(&self) -> Seq<MidiMessage> {
        self.book.sent()
    }

    pub fn new(channel: u8) -> (r: BlackboxSample)
        requires
            channel_fits(144, channel as int),
        ensures
            r.channel() == channel,
            r.held() == Map::<u32, (u8, u8, u8)>::empty(),
            r.sent() == Seq::<MidiMessage>::empty(),
    {
        BlackboxSample { midi_channel: channel, book: NoteBook::new() }
    }

    /// Hands out the messages produced so far.
    pub fn take_messages(&mut self) -> (r: Vec<MidiMessage>)
        ensures
            r@ == old(self).sent(),
            final(self).sent() == Seq::<MidiMessage>::empty(),
            final(self).held() == old(self).held(),
            final(self).channel() == old(self).channel(),
    {
        proof {
            use_type_invariant(&*self);
        }
        let mut book = NoteBook::new();
        std::mem::swap(&mut book, &mut self.book);
        let r = book.take_messages();
        self.book = book;
        r
    }
}

impl Triggerable for BlackboxSample {
    fn trigger(&mut self, id: u32, value: OutputValue)
        ensures
            final(self).channel() == old(self).channel(),
            match value {
                OutputValue::Off => if old(self).held().contains_key(id) {
                    &&& final(self).sent() == old(self).sent().push(MidiMessage::Three(
                        status(144, old(self).held()[id].0 as int) as u8, old(self).held()[id].1, 0))
                    &&& final(self).held() == old(self).held().remove(id)
                } else {
                    final(self).sent() == old(self).sent() && final(self).held() == old(self).held()
                },
                OutputValue::On(velocity) => {
                    &&& final(self).sent() == old(self).sent().push(MidiMessage::Three(
                        status(144, old(self).channel() as int) as u8, sample_note(id), velocity))
                    &&& final(self).held() == old(self).held().insert(id, (old(self).channel(), sample_note(id), velocity))
                },
            },
    {
        proof {
            use_type_invariant(&*self);
        }
        let mut book = NoteBook::new();
        std::mem::swap(&mut book, &mut self.book);
        match value {
            OutputValue::Off => {
                book.release(id, 144);
            },
            OutputValue::On(base_velocity) => {
                let velocity = base_velocity;
                let channel = self.midi_channel;
                let note_id = sample_note_exec(id);
                book.press(id, channel, note_id, velocity);
            },
        }
        self.book = book;
    }

    fn latch_mode(&self) -> (r: LatchMode)
        ensures
            r == LatchMode::NoSuppress,
    {
        LatchMode::NoSuppress
    }
}

} // verus!
