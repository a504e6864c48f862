use vstd::prelude::*;

use super::note_book::NoteBook;
use super::{channel_fits, status, MidiMessage};
use super::blackbox_drums::{on_sixteenth, sixteenth_step, step_of};
use crate::midi_time::MidiTime;
use crate::output_value::OutputValue;
use std::collections::HashMap;

verus! {

/// The drum notes of the Blofeld drum kit, by trigger (cycling every eight).
pub open spec fn drum_note(id: u32) -> u8 {
    seq![36u8, 38, 39, 37, 50, 41, 43, 52][(id % 8) as int]
}

/// The Blofeld drum notes by trigger, cycling every eight: 36, 38, 39, 37, 50, 41, 43, 52.
pub proof fn law_blofeld_drum_notes(id: u32)
    ensures
        id % 8 == 0 ==> drum_note(id) == 36,
        id % 8 == 1 ==> drum_note(id) == 38,
        id % 8 == 2 ==> drum_note(id) == 39,
        id % 8 == 3 ==> drum_note(id) == 37,
        id % 8 == 4 ==> drum_note(id) == 50,
        id % 8 == 5 ==> drum_note(id) == 41,
        id % 8 == 6 ==> drum_note(id) == 43,
        id % 8 == 7 ==> drum_note(id) == 52,
{
}

fn drum_note_exec(id: u32) -> (r: u8)
    ensures
        r == drum_note(id),
{
    let drums: [u8; 8] = [36, 38, 39, 37, 50, 41, 43, 52];
    proof {
        assert(drums@ =~= seq![36u8, 38, 39, 37, 50, 41, 43, 52]);
    }
    drums[(id % 8) as usize]
}

/// The velocity of a drum hit: on the first tick of a sixteenth, the level the velocity
/// controls hold for that step (100 if none); elsewhere 100. The velocity played is ignored.
pub open spec fn step_velocity(pos: int, levels: Map<u32, u8>) -> u8 {
    if on_sixteenth(pos) && levels.contains_key(sixteenth_step(pos) as u32) {
        levels[sixteenth_step(pos) as u32]
    } else {
        100
    }
}

/// Plays drums on a Blofeld, with per-step velocity levels, and mirrors the kick
/// (trigger 0) to a second port as note 24.
pub struct BlofeldDrums {
    midi_channel: u8,
    sync_channel: u8,
    last_pos: MidiTime,
    book: NoteBook,
    sync: Vec<MidiMessage>,
}

impl BlofeldDrums {
    #[verifier::type_invariant]
    spec fn inv(&self) -> bool {
        channel_fits(144, self.midi_channel as int) && channel_fits(144, self.sync_channel as int)
            && self.book.well_formed()
    }

    pub closed spec fn channel(&self) -> u8 {
        self.midi_channel
    }

    pub closed spec fn sync_channel(&self) -> u8 {
        self.sync_channel
    }

    pub closed spec fn last_pos(&self) -> MidiTime {
        self.last_pos
    }

    pub closed spec fn held(&self) -> Map<u32, (u8, u8, u8)> {
        self.book.held()
    }

    pub closed spec fn sent(&self) -> Seq<MidiMessage> {
        self.book.sent()
    }

    pub closed spec fn sync_sent(&self) -> Seq<MidiMessage> {
        self.sync@
    }

    pub fn new(channel: u8, sync_channel: u8) -> (r: BlofeldDrums)
        requires
            channel_fits(144, channel as int),
            channel_fits(144, sync_channel as int),
        ensures
            r.channel() == channel,
            r.sync_channel() == sync_channel,
            r.last_pos()@ == 0,
            r.held() == Map::<u32, (u8, u8, u8)>::empty(),
            r.sent() == Seq::<MidiMessage>::empty(),
            r.sync_sent() == Seq::<MidiMessage>::empty(),
    {
        BlofeldDrums { midi_channel: channel, sync_channel, last_pos: MidiTime::zero(), book: NoteBook::new(), sync: Vec::new() }
    }

    /// Follows the clock.
    pub fn on_tick(&mut self, time: MidiTime)
        ensures
            final(self).last_pos() == time,
            final(self).held() == old(self).held(),
            final(self).sent() == old(self).sent(),
            final(self).sync_sent() == old(self).sync_sent(),
            final(self).channel() == old(self).channel(),
            final(self).sync_channel() == old(self).sync_channel(),
    {
        proof {
            use_type_invariant(&*self);
        }
        self.last_pos = time;
    }

    /// A trigger changed value; `levels` holds the velocity level of each step.
    pub fn trigger(&mut self, id: u32, value: OutputValue, levels: &HashMap<u32, u8>)
        requires
            old(self).last_pos()@ >= 0,
        ensures
            final(self).channel() == old(self).channel(),
            final(self).sync_channel() == old(self).sync_channel(),
            final(self).last_pos() == old(self).last_pos(),
            match value {
                OutputValue::Off => if old(self).held().contains_key(id) {
                    &&& final(self).sent() == old(self).sent().push(MidiMessage::Three(
                        status(128, old(self).held()[id].0 as int) as u8, old(self).held()[id].1, 0))
                    &&& final(self).held() == old(self).held().remove(id)
                    &&& final(self).sync_sent() == if id == 0 {
                        old(self).sync_sent().push(MidiMessage::Three(status(128, old(self).sync_channel() as int) as u8, 24, 0))
                    } else {
                        old(self).sync_sent()
                    }
                } else {
                    &&& final(self).sent() == old(self).sent()
                    &&& final(self).held() == old(self).held()
                    &&& final(self).sync_sent() == old(self).sync_sent()
                },
                OutputValue::On(_) => {
                    let velocity = step_velocity(old(self).last_pos()@, levels@);
                    &&& final(self).sent() == old(self).sent().push(MidiMessage::Three(
                        status(144, old(self).channel() as int) as u8, drum_note(id), velocity))
                    &&& final(self).held() == old(self).held().insert(id, (old(self).channel(), drum_note(id), velocity))
                    &&& final(self).sync_sent() == if id == 0 {
                        old(self).sync_sent().push(MidiMessage::Three(status(144, old(self).sync_channel() as int) as u8, 24, velocity))
                    } else {
                        old(self).sync_sent()
                    }
                },
            },
    {
        broadcast use vstd::std_specs::hash::group_hash_axioms;
        proof {
            use_type_invariant(&*self);
        }
        let mut book = NoteBook::new();
        std::mem::swap(&mut book, &mut self.book);
        let mut sync: Vec<MidiMessage> = Vec::new();
        std::mem::swap(&mut sync, &mut self.sync);
        match value {
            OutputValue::Off => {
                let released = book.release(id, 128);
                if released && id == 0 {
                    sync.push(MidiMessage::Three(128 - 1 + self.sync_channel, 24, 0));
                }
            },
            OutputValue::On(_) => {
                let base_velocity: u8 = 100;
                let (step, on_step) = step_of(self.last_pos);
                let velocity = if on_step {
                    match levels.get(&step) {
                        Some(v) => *v,
                        None => base_velocity,
                    }
                } else {
                    base_velocity
                };
                let channel = self.midi_channel;
                let note_id = drum_note_exec(id);
                book.press(id, channel, note_id, velocity);
                if id == 0 {
                    sync.push(MidiMessage::Three(144 - 1 + self.sync_channel, 24, velocity));
                }
            },
        }
        self.book = book;
        self.sync = sync;
    }

    /// Hands out the messages for the drum port and for the sync port.
    pub fn take_messages(&mut self) -> (r: (Vec<MidiMessage>, Vec<MidiMessage>))
        ensures
            r.0@ == old(self).sent(),
            r.1@ == old(self).sync_sent(),
            final(self).sent() == Seq::<MidiMessage>::empty(),
            final(self).sync_sent() == Seq::<MidiMessage>::empty(),
            final(self).held() == old(self).held(),
            final(self).channel() == old(self).channel(),
            final(self).sync_channel() == old(self).sync_channel(),
            final(self).last_pos() == old(self).last_pos(),
    {
        proof {
            use_type_invariant(&*self);
        }
        let mut book = NoteBook::new();
        std::mem::swap(&mut book, &mut self.book);
        let main = book.take_messages();
        self.book = book;
        let mut sync: Vec<MidiMessage> = Vec::new();
        std::mem::swap(&mut sync, &mut self.sync);
        (main, sync)
    }
}

/// Per-step drum parameters: a velocity and an x value for each of eight steps.
pub struct BlofeldDrumParams {
    pub velocities: [u8; 8],
    pub x: [u8; 8],
}

} // verus!
