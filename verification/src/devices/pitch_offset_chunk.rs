use vstd::prelude::*;

use super::offset::{HeldOffsets, MAX_HELD};
use super::{channel_fits, status, MidiMessage};
use crate::output_value::OutputValue;

verus! {

/// Keeps the lower seven bits of a byte, the payload width of a MIDI data byte.
pub fn mask7(input: u8) -> (r: u8)
    ensures
        r == input % 128,
{
    let r = input & 0x7f;
    assert(input & 0x7f == input % 128) by (bit_vector);
    r
}

/// The 14-bit pitch-bend position for an offset in semitones: the offset, limited to one
/// octave either way, as a fraction of an octave spread over 0..16384 (centre 8192),
/// rounded down.
pub open spec fn bend_position(semitones: int) -> int {
    let s = if semitones < -12 { -12 } else if semitones > 12 { 12 } else { semitones };
    (s * 2048 + 24576) / 3
}

/// The (least, most) significant seven-bit halves of a pitch-bend position.
pub open spec fn bend_bytes(position: int) -> (u8, u8) {
    ((position % 128) as u8, ((position / 128) % 128) as u8)
}

/// The two data bytes of the pitch bend for an offset in semitones.
pub fn pitch_bend_bytes(semitones: i32) -> (r: (u8, u8))
    ensures
        r == bend_bytes(bend_position(semitones as int)),
{
    let s: i32 = if semitones < -12 { -12 } else if semitones > 12 { 12 } else { semitones };
    let position = ((s * 2048 + 24576) / 3) as u16;
    assert(0 <= position <= 16384);
    let lsb = mask7(position as u8);
    let msb = mask7((position >> 7) as u8);
    proof {
        assert((position as u8) == position % 256) by (bit_vector);
        assert((position as int % 256) % 128 == position as int % 128) by {
            vstd::arithmetic::div_mod::lemma_mod_mod(position as int, 128, 2);
        }
        assert(position >> 7 == position / 128) by (bit_vector);
        assert((position / 128) as int <= 128);
    }
    (lsb, msb)
}

/// Bends the pitch of a channel by the sum of the held offset triggers, in semitones.
pub struct PitchOffsetChunk {
    channel: u8,
    held: HeldOffsets,
    outbox: Vec<MidiMessage>,
}

impl PitchOffsetChunk {
    pub closed spec fn held(&self) -> HeldOffsets {
        self.held
    }

    pub closed spec fn channel(&self) -> u8 {
        self.channel
    }

    pub closed spec fn sent(&self) -> Seq<MidiMessage> {
        self.outbox@
    }

    pub fn new(channel: u8) -> (r: PitchOffsetChunk)
        requires
            channel_fits(224, channel as int),
        ensures
            r.channel() == channel,
            r.held().ids() == Seq::<u32>::empty(),
            r.held().well_formed(),
            r.sent() == Seq::<MidiMessage>::empty(),
    {
        PitchOffsetChunk { channel, held: HeldOffsets::new(), outbox: Vec::new() }
    }

    /// A trigger changed value; sends the pitch bend for the new sum.
    pub fn trigger(&mut self, id: u32, value: OutputValue)
        requires
            old(self).held().well_formed(),
            old(self).held().ids().len() + 1 < MAX_HELD,
            channel_fits(224, old(self).channel() as int),
        ensures
            final(self).held().well_formed(),
            final(self).channel() == old(self).channel(),
            final(self).held().ids().to_set() == match value {
                OutputValue::Off => old(self).held().ids().to_set().remove(id),
                OutputValue::On(_) => old(self).held().ids().to_set().insert(id),
            },
            ({
                let (lsb, msb) = bend_bytes(bend_position(final(self).held().total()));
                final(self).sent() == old(self).sent().push(MidiMessage::Three(status(224, old(self).channel() as int) as u8, lsb, msb))
            }),
    {
        let result = self.held.trigger(id, value);
        let (lsb, msb) = pitch_bend_bytes(result);
        self.outbox.push(MidiMessage::Three(224 - 1 + self.channel, lsb, msb));
    }

    /// Hands out the messages produced so far.
    pub fn take_messages(&mut self) -> (r: Vec<MidiMessage>)
        ensures
            r@ == old(self).sent(),
            final(self).sent() == Seq::<MidiMessage>::empty(),
            final(self).held() == old(self).held(),
            final(self).channel() == old(self).channel(),
    {
        let mut out: Vec<MidiMessage> = Vec::new();
        std::mem::swap(&mut out, &mut self.outbox);
        out
    }
}

} // verus!
