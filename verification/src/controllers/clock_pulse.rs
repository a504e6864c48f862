use vstd::prelude::*;

use crate::controllers::Schedulable;
use crate::devices::MidiMessage;
use crate::midi_time::{floor_ticks, MidiTime};

verus! {

/// The step of the pulse cycle a tick falls on: the tick before it, counted in steps of
/// `divider`, taken with the sign of the tick (as Rust's `%` does).
pub open spec fn pulse_step(ticks: int, divider: int) -> int {
    let n = ticks - 1;
    if n >= 0 { n % divider } else { -((-n) % divider) }
}

/// A clock pulse sent as a note: on at the first tick of every `divider` ticks, off at
/// the next.
pub struct ClockPulse {
    channel: u8,
    divider: i32,
    outbox: Vec<MidiMessage>,
}

impl ClockPulse {
    /// The channel the pulse is sent on (1 to 16 name MIDI channels).
    pub closed spec fn pulse_channel(&self) -> u8 {
        self.channel
    }

    /// Ticks per pulse.
    pub closed spec fn pulse_divider(&self) -> i32 {
        self.divider
    }

    /// The messages to send, oldest first.
    pub closed spec fn messages(&self) -> Seq<MidiMessage> {
        self.outbox@
    }

    /// A pulse on `channel` (at most 112, so that its note-on status fits a byte) every
    /// `divider` (positive) ticks.
    pub fn new(channel: u8, divider: i32) -> (r: ClockPulse)
        requires
            channel <= 112,
            divider > 0,
        ensures
            r.pulse_channel() == channel,
            r.pulse_divider() == divider,
            r.messages() == Seq::<MidiMessage>::empty(),
    {
        ClockPulse { channel, divider, outbox: Vec::new() }
    }

    /// The clock reached `pos`: the pulse note starts on step 0 of the cycle and stops on
    /// step 1.
    pub fn tick(&mut self, pos: MidiTime)
        requires
            old(self).pulse_channel() <= 112,
            old(self).pulse_divider() > 0,
        ensures
            final(self).pulse_channel() == old(self).pulse_channel(),
            final(self).pulse_divider() == old(self).pulse_divider(),
            ({
                let step = pulse_step(floor_ticks(pos@), old(self).pulse_divider() as int);
                let ch = old(self).pulse_channel() as int;
                final(self).messages() == if step == 0 {
                    old(self).messages().push(MidiMessage::Three((143 + ch) as u8, 64, 127))
                } else if step == 1 {
                    old(self).messages().push(MidiMessage::Three((127 + ch) as u8, 64, 0))
                } else {
                    old(self).messages()
                }
            }),
    {
        let ticks = pos.ticks() as i64 - 1;
        let d = self.divider as i64;
        let tick = if ticks >= 0 { ticks % d } else { -((-ticks) % d) };
        if tick == 0 {
            self.outbox.push(MidiMessage::Three(144 - 1 + self.channel, 64, 127));
        } else if tick == 1 {
            self.outbox.push(MidiMessage::Three(128 - 1 + self.channel, 64, 0));
        }
    }

    /// Hands out the messages to send, oldest first.
    pub fn take_messages(&mut self) -> (r: Vec<MidiMessage>)
        ensures
            r@ == old(self).messages(),
            final(self).messages() == Seq::<MidiMessage>::empty(),
            final(self).pulse_channel() == old(self).pulse_channel(),
            final(self).pulse_divider() == old(self).pulse_divider(),
    {
        let mut taken: Vec<MidiMessage> = Vec::new();
        std::mem::swap(&mut taken, &mut self.outbox);
        taken
    }
}

impl Schedulable for ClockPulse {
    /// Sends the pulse for `pos` as `tick` does; a pulse with a channel above 112 or
    /// a divider below 1 sends nothing.
    fn schedule(&mut self, pos: MidiTime)
        ensures
            final(self).pulse_channel() == old(self).pulse_channel(),
            final(self).pulse_divider() == old(self).pulse_divider(),
            ({
                let step = pulse_step(floor_ticks(pos@), old(self).pulse_divider() as int);
                let ch = old(self).pulse_channel() as int;
                final(self).messages() == if !(ch <= 112 && old(self).pulse_divider() > 0) {
                    old(self).messages()
                } else if step == 0 {
                    old(self).messages().push(MidiMessage::Three((143 + ch) as u8, 64, 127))
                } else if step == 1 {
                    old(self).messages().push(MidiMessage::Three((127 + ch) as u8, 64, 0))
                } else {
                    old(self).messages()
                }
            }),
    {
        if self.channel <= 112 && self.divider > 0 {
            self.tick(pos);
        }
    }
}

} // verus!
