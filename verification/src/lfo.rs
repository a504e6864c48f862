use vstd::prelude::*;

use crate::midi_time::{wrap, MidiTime};

verus! {

/// The cycle length, in 256ths of a tick, of each of the ten LFO rates, slowest first:
/// 3, 2, 3/2, 1, 2/3, 1/2, 1/3, 1/4, 1/6 and 1/8 of a beat.
pub open spec fn lfo_rate(index: int) -> int {
    seq![18432int, 12288, 9216, 6144, 4096, 3072, 2048, 1536, 1024, 768][index]
}

/// Which of the ten rates a speed (0 to 255) selects: the speed's share of 128 steps,
/// spread over the ten rates and rounded down, at most the last.
pub open spec fn rate_index(speed: u8) -> int {
    let i = speed * 10 / 128;
    if i > 9 { 9 } else { i }
}

/// A low-frequency oscillator's settings, as controller values.
pub struct Lfo {
    pub speed: u8,
    pub wave: u8,
}

impl Lfo {
    /// A medium speed and the middle wave.
    pub fn new() -> (r: Lfo)
        ensures
            r.speed == 50,
            r.wave == 64,
    {
        Lfo { speed: 50, wave: 64 }
    }

    /// The length of one cycle at the LFO's speed.
    pub fn cycle_duration(&self) -> (r: MidiTime)
        ensures
            r@ == lfo_rate(rate_index(self.speed)),
    {
        let index = self.speed as u32 * 10 / 128;
        let index = if index > 9 { 9 } else { index };
        match index {
            0 => MidiTime::from_measure(3, 1),
            1 => MidiTime::from_measure(2, 1),
            2 => MidiTime::from_measure(3, 2),
            3 => MidiTime::from_measure(1, 1),
            4 => MidiTime::from_measure(2, 3),
            5 => MidiTime::from_measure(1, 2),
            6 => MidiTime::from_measure(1, 3),
            7 => MidiTime::from_measure(1, 4),
            8 => MidiTime::from_measure(1, 6),
            _ => MidiTime::from_measure(1, 8),
        }
    }

    /// How far `pos` lies into the current cycle.
    pub fn cycle_position(&self, pos: MidiTime) -> (r: MidiTime)
        ensures
            r@ == wrap(pos@, lfo_rate(rate_index(self.speed))),
            0 <= r@ < lfo_rate(rate_index(self.speed)),
    {
        let cycle = self.cycle_duration();
        pos.modulo(cycle)
    }
}

} // verus!
