use vstd::prelude::*;

use super::note_book::NoteBook;
use super::{channel_fits, status, MidiMessage};
use crate::midi_time::MidiTime;
use crate::output_value::OutputValue;
use std::collections::HashMap;

verus! {

/// The drum notes of the Blackbox, by trigger (cycling every eight).
pub open spec fn drum_note(id: u32) -> u8 {
    seq![48u8, 49, 50, 51, 44, 45, 46, 47][(id % 8) as int]
}

fn drum_note_exec(id: u32) -> (r: u8)
    ensures
        r == drum_note(id),
{
    let drums: [u8; 8] = [48, 49, 50, 51, 44, 45, 46, 47];
    proof {
        assert(drums@ =~= seq![48u8, 49, 50, 51, 44, 45, 46, 47]);
    }
    drums[(id % 8) as usize]
}

/// The drum pads cycle every eight triggers: the first four play notes 48 to 51 and the
/// next four notes 44 to 47.
pub proof fn law_drum_pads(id: u32)
    ensures
        id % 8 < 4 ==> drum_note(id) == 48 + id % 8,
        id % 8 >= 4 ==> drum_note(id) == 40 + id % 8,
        drum_note(id) == drum_note(id % 8),
{
}

/// Which of the eight sixteenth-note steps of a two-beat bar a position falls in.
pub open spec fn sixteenth_step(pos: int) -> int {
    (pos / 256) / 6 % 8
}

/// Whether a position lies in the first tick of a sixteenth note.
pub open spec fn on_sixteenth(pos: int) -> bool {
    pos % 1536 < 256
}

/// The velocity a drum hit gets: on the first tick of a sixteenth whose step is accented it
/// is raised by 50 (to at most 127), elsewhere it is the velocity played.
pub open spec fn accented(pos: int, velocity: u8, accents: Map<u32, u8>) -> u8 {
    if on_sixteenth(pos) && accents.contains_key(sixteenth_step(pos) as u32) {
        if velocity + 50 <= 127 {
            (velocity + 50) as u8
        } else {
            127
        }
    } else {
        velocity
    }
}

/// The sixteenth step and whether the position is on its first tick.
pub fn step_of(pos: MidiTime) -> (r: (u32, bool))
    requires
        pos@ >= 0,
    ensures
        r.0 == sixteenth_step(pos@),
        r.1 == on_sixteenth(pos@),
{
    let ticks = pos.ticks();
    let step = ticks / 6 % 8;
    let in_step = pos.modulo(MidiTime::from_ticks(6));
    (step as u32, in_step.ticks() == 0)
}

/// Plays drums on a Blackbox, accenting hits on the steps the velocity controls hold, and
/// mirrors the kick (trigger 0) to a second port as note 36.
pub struct BlackboxDrums {
    midi_channel: u8,
    sync_channel: u8,
    last_pos: MidiTime,
    book: NoteBook,
    sync: Vec<MidiMessage>,
}

impl BlackboxDrums {
    #[verifier::type_invariant]
    spec fn inv(&self) -> bool {
        channel_fits(144, self.midi_channel as int) && channel_fits(144, self.sync_channel as int)
            && self.book.well_formed()
    }

    pub closed spec fn channel(&self) -> u8 {
        self.midi_channel
    }

    pub closed spec fn sync_channel(&self) -> u8 {
        self.sync_channel
    }

    pub closed spec fn last_pos(&self) -> MidiTime {
        self.last_pos
    }

    pub closed spec fn held(&self) -> Map<u32, (u8, u8, u8)> {
        self.book.held()
    }

    pub closed spec fn sent(&self) -> Seq<MidiMessage> {
        self.book.sent()
    }

    pub closed spec fn sync_sent(&self) -> Seq<MidiMessage> {
        self.sync@
    }

    pub fn new(channel: u8, sync_channel: u8) -> (r: BlackboxDrums)
        requires
            channel_fits(144, channel as int),
            channel_fits(144, sync_channel as int),
        ensures
            r.channel() == channel,
            r.sync_channel() == sync_channel,
            r.last_pos()@ == 0,
            r.held() == Map::<u32, (u8, u8, u8)>::empty(),
            r.sent() == Seq::<MidiMessage>::empty(),
            r.sync_sent() == Seq::<MidiMessage>::empty(),
    {
        BlackboxDrums { midi_channel: channel, sync_channel, last_pos: MidiTime::zero(), book: NoteBook::new(), sync: Vec::new() }
    }

    /// Follows the clock.
    pub fn on_tick(&mut self, time: MidiTime)
        ensures
            final(self).last_pos() == time,
            final(self).held() == old(self).held(),
            final(self).sent() == old(self).sent(),
            final(self).sync_sent() == old(self).sync_sent(),
            final(self).channel() == old(self).channel(),
            final(self).sync_channel() == old(self).sync_channel(),
    {
        proof {
            use_type_invariant(&*self);
        }
        self.last_pos = time;
    }

    /// A trigger changed value; `accents` holds the steps whose hits are accented.
    pub fn trigger(&mut self, id: u32, value: OutputValue, accents: &HashMap<u32, u8>)
        requires
            old(self).last_pos()@ >= 0,
            value matches OutputValue::On(v) ==> v + 50 <= 255,
        ensures
            final(self).channel() == old(self).channel(),
            final(self).sync_channel() == old(self).sync_channel(),
            final(self).last_pos() == old(self).last_pos(),
            match value {
                OutputValue::Off => if old(self).held().contains_key(id) {
                    &&& final(self).sent() == old(self).sent().push(MidiMessage::Three(
                        status(144, old(self).held()[id].0 as int) as u8, old(self).held()[id].1, 0))
                    &&& final(self).held() == old(self).held().remove(id)
                    &&& final(self).sync_sent() == if id == 0 {
                        old(self).sync_sent().push(MidiMessage::Three(status(128, old(self).sync_channel() as int) as u8, 36, 0))
                    } else {
                        old(self).sync_sent()
                    }
                } else {
                    &&& final(self).sent() == old(self).sent()
                    &&& final(self).held() == old(self).held()
                    &&& final(self).sync_sent() == old(self).sync_sent()
                },
                OutputValue::On(base) => {
                    let velocity = accented(old(self).last_pos()@, base, accents@);
                    &&& final(self).sent() == old(self).sent().push(MidiMessage::Three(
                        status(144, old(self).channel() as int) as u8, drum_note(id), velocity))
                    &&& final(self).held() == old(self).held().insert(id, (old(self).channel(), drum_note(id), velocity))
                    &&& final(self).sync_sent() == if id == 0 {
                        old(self).sync_sent().push(MidiMessage::Three(status(144, old(self).sync_channel() as int) as u8, 36, velocity))
                    } else {
                        old(self).sync_sent()
                    }
                },
            },
    {
        broadcast use vstd::std_specs::hash::group_hash_axioms;
        proof {
            use_type_invariant(&*self);
        }
        let mut book = NoteBook::new();
        std::mem::swap(&mut book, &mut self.book);
        let mut sync: Vec<MidiMessage> = Vec::new();
        std::mem::swap(&mut sync, &mut self.sync);
        match value {
            OutputValue::Off => {
                let released = book.release(id, 144);
                if released && id == 0 {
                    sync.push(MidiMessage::Three(128 - 1 + self.sync_channel, 36, 0));
                }
            },
            OutputValue::On(base_velocity) => {
                let (step, on_step) = step_of(self.last_pos);
                let velocity = if on_step && accents.contains_key(&step) {
                    if base_velocity <= 77 {
                        base_velocity + 50
                    } else {
                        127
                    }
                } else {
                    base_velocity
                };
                let channel = self.midi_channel;
                let note_id = drum_note_exec(id);
                book.press(id, channel, note_id, velocity);
                if id == 0 {
                    sync.push(MidiMessage::Three(144 - 1 + self.sync_channel, 36, velocity));
                }
            },
        }
        self.book = book;
        self.sync = sync;
    }

    /// Hands out the messages for the drum port and for the sync port.
    pub fn take_messages(&mut self) -> (r: (Vec<MidiMessage>, Vec<MidiMessage>))
        ensures
            r.0@ == old(self).sent(),
            r.1@ == old(self).sync_sent(),
            final(self).sent() == Seq::<MidiMessage>::empty(),
            final(self).sync_sent() == Seq::<MidiMessage>::empty(),
            final(self).held() == old(self).held(),
            final(self).channel() == old(self).channel(),
            final(self).sync_channel() == old(self).sync_channel(),
            final(self).last_pos() == old(self).last_pos(),
    {
        proof {
            use_type_invariant(&*self);
        }
        let mut book = NoteBook::new();
        std::mem::swap(&mut book, &mut self.book);
        let main = book.take_messages();
        self.book = book;
        let mut sync: Vec<MidiMessage> = Vec::new();
        std::mem::swap(&mut sync, &mut self.sync);
        (main, sync)
    }
}

} // verus!
