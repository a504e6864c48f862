use vstd::prelude::*;

use super::MidiMessage;
use crate::output_value::OutputValue;

verus! {

/// The channel (0-based) each of the sixteen triggers plays.
pub open spec fn volca_channel(id: u32) -> u8 {
    seq![0u8, 1, 8, 9, 2, 3, 4, 5, 6, 6, 6, 6, 7, 7, 7, 7][id as int]
}

/// The first eight triggers play channels 0, 1, 8, 9, 2, 3, 4 and 5; triggers 8 to 11 all
/// play channel 6 and 12 to 15 channel 7.
pub proof fn law_volca_channels(id: u32)
    requires
        id < 16,
    ensures
        id == 0 ==> volca_channel(id) == 0,
        id == 1 ==> volca_channel(id) == 1,
        id == 2 ==> volca_channel(id) == 8,
        id == 3 ==> volca_channel(id) == 9,
        4 <= id < 8 ==> volca_channel(id) == id - 2,
        8 <= id < 12 ==> volca_channel(id) == 6,
        12 <= id ==> volca_channel(id) == 7,
{
}

/// The pitch offset the upper eight triggers set before playing, by trigger.
pub open spec fn volca_pitch_offset(id: u32) -> int {
    let pos = id % 4;
    if pos == 1 {
        -14
    } else if pos == 2 {
        14
    } else if pos == 3 {
        18
    } else {
        0
    }
}

/// The messages a trigger sends to the Volca Sample: the upper eight set the pitch
/// (control 43) of their channel first; every press then plays note 0 at full velocity.
pub open spec fn volca_messages(id: u32, value: OutputValue) -> Seq<MidiMessage> {
    match value {
        OutputValue::Off => Seq::empty(),
        OutputValue::On(_) => {
            let channel = volca_channel(id);
            let play = MidiMessage::Three((144 + channel) as u8, 0, 127);
            if id >= 8 {
                seq![MidiMessage::Three((176 + channel) as u8, 43, (64 + volca_pitch_offset(id)) as u8), play]
            } else {
                seq![play]
            }
        },
    }
}

/// Plays the Volca Sample.
pub struct VolcaSample {
    outbox: Vec<MidiMessage>,
}

impl VolcaSample {
    pub closed spec fn sent(&self) -> Seq<MidiMessage> {
        self.outbox@
    }

    pub fn new() -> (r: VolcaSample)
        ensures
            r.sent() == Seq::<MidiMessage>::empty(),
    {
        VolcaSample { outbox: Vec::new() }
    }

    /// A trigger changed value.
    pub fn trigger(&mut self, id: u32, value: OutputValue)
        requires
            value is On ==> id < 16,
        ensures
            final(self).sent() == old(self).sent() + volca_messages(id, value),
    {
        match value {
            OutputValue::Off => {
                assert(self.outbox@ =~= old(self).sent() + volca_messages(id, value));
            },
            OutputValue::On(_) => {
                let channel_map: [u8; 16] = [0, 1, 8, 9, 2, 3, 4, 5, 6, 6, 6, 6, 7, 7, 7, 7];
                proof {
                    assert(channel_map@ =~= seq![0u8, 1, 8, 9, 2, 3, 4, 5, 6, 6, 6, 6, 7, 7, 7, 7]);
                }
                let channel = channel_map[id as usize];
                if id >= 8 {
                    let pos = id % 4;
                    let offset: i32 = match pos {
                        1 => -14,
                        2 => 14,
                        3 => 18,
                        _ => 0,
                    };
                    self.outbox.push(MidiMessage::Three(176 + channel, 43, (64 + offset) as u8));
                }
                self.outbox.push(MidiMessage::Three(144 + channel, 0, 127));
                assert(self.outbox@ =~= old(self).sent() + volca_messages(id, value));
            },
        }
    }

    /// Hands out the messages produced so far.
    pub fn take_messages(&mut self) -> (r: Vec<MidiMessage>)
        ensures
            r@ == old(self).sent(),
            final(self).sent() == Seq::<MidiMessage>::empty(),
    {
        let mut out: Vec<MidiMessage> = Vec::new();
        std::mem::swap(&mut out, &mut self.outbox);
        out
    }
}

} // verus!
