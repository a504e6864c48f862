use vstd::prelude::*;

use crate::config::{spec_all, MidiPortConfig, Modulator, TriggerCondition};
use crate::devices::pitch_offset_chunk::mask7;
use crate::devices::{channel_fits, status, MidiMessage};
use crate::midi_time::MidiTime;
use std::collections::HashSet;

pub mod clock_pulse;
pub mod init;
pub mod launchpad_tempo;
pub mod modulation_surface;
pub mod sample_mixer;
pub mod twister;
pub mod vt4_key;

verus! {

/// Something that acts on the clock: called with the position of every scheduled tick.
pub trait Schedulable {
    /// The clock reached `pos`.
    fn schedule(&mut self, _pos: MidiTime) {
    }
}


/// A controller value eased out: `v * (254 - v) / 127`, rounded down (a quadratic curve
/// from 0 to 127 that rises fast and flattens). Values past the controller range fall
/// back along the same curve, and below 0 (at 255) the result is held at 0.
pub open spec fn spec_ease_out(value: int) -> int {
    if value >= 254 {
        0
    } else {
        value * (254 - value) / 127
    }
}

/// Eases a controller value out along a quadratic curve.
pub fn midi_ease_out(value: u8) -> (r: u8)
    ensures
        r == spec_ease_out(value as int),
{
    if value >= 254 {
        return 0;
    }
    let v = value as u32;
    assert(v * (254 - v) <= 127 * 127) by (nonlinear_arith)
        requires v <= 253;
    let r = v * (254 - v) / 127;
    assert(r <= 127) by (nonlinear_arith)
        requires r == v * (254 - v) / 127, v * (254 - v) <= 127 * 127;
    r as u8
}

/// The 14-bit pitch-bend position for a centred controller value: 0..62 bend down
/// (reaching 0 at 0), 63 and 64 are the centre 8192, 65..127 bend up (127 gives the top,
/// 16383); positions are rounded down.
pub open spec fn polar_bend_position(value: int) -> int {
    if value < 63 {
        value * 8192 / 63
    } else if value <= 64 {
        8192
    } else if value >= 127 {
        16383
    } else {
        (value - 64) * 8192 / 63 + 8192
    }
}

/// The 14-bit pitch-bend position for a controller value read from the centre upwards:
/// 0 is the centre 8192, 127 the top 16383.
pub open spec fn positive_bend_position(value: int) -> int {
    if value >= 127 {
        16383
    } else {
        value * 8192 / 127 + 8192
    }
}

/// The (least, most) significant seven-bit halves of a 14-bit position.
pub open spec fn position_bytes(position: int) -> (u8, u8) {
    ((position % 128) as u8, ((position / 128) % 128) as u8)
}

pub(crate) fn bend_bytes(position: u32) -> (r: (u8, u8))
    requires
        position <= 16383,
    ensures
        r == position_bytes(position as int),
{
    let p = position as u16;
    let lsb = mask7(p as u8);
    let msb = mask7((p >> 7) as u8);
    proof {
        assert((p as u8) == p % 256) by (bit_vector);
        vstd::arithmetic::div_mod::lemma_mod_mod(p as int, 128, 2);
        assert(p >> 7 == p / 128) by (bit_vector);
    }
    (lsb, msb)
}

/// The value a centred control sends to its lower control when turned below the centre:
/// the squared distance from the centre, scaled to 0..127 and rounded down.
pub open spec fn polar_low_value(value: int) -> int {
    (63 - value) * (63 - value) * 127 / 3969
}

/// The value a centred control sends to its upper control at or above the centre.
pub open spec fn polar_high_value(value: int) -> int {
    if value > 64 {
        (value - 64) * 127 / 63
    } else {
        0
    }
}

/// A controller value scaled onto `0..=max` (rounded down, at most 127).
pub open spec fn scaled(value: int, max: int) -> int {
    let u = value * max / 127;
    if u > 127 {
        127
    } else {
        u
    }
}

/// Whether every modulator a modulator stands for has values its messages can carry.
pub open spec fn modulator_ok(m: Modulator) -> bool {
    match m {
        Modulator::InvertCc(_, v) => v <= 127,
        Modulator::PitchBend(p) => p <= 16383,
        Modulator::PositivePitchBend(p) => p <= 16383,
        Modulator::PolarCcSwitch { default, .. } => default <= 127,
        _ => true,
    }
}

/// What one modulator sends for a controller value, and the notes it then holds.
pub open spec fn send_one(m: Modulator, channel: u8, value: u8, triggered: Set<u8>) -> (Seq<MidiMessage>, Set<u8>) {
    let cc = status(176, channel as int) as u8;
    match m {
        Modulator::Cc(id, _) => (seq![MidiMessage::Three(cc, id, value)], triggered),
        Modulator::Aftertouch(_) => (seq![MidiMessage::Two(status(208, channel as int) as u8, value)], triggered),
        Modulator::InvertCc(id, _) => (seq![MidiMessage::Three(cc, id, (127 - value) as u8)], triggered),
        Modulator::InvertMaxCc(id, max, _) => (seq![MidiMessage::Three(cc, id, (max - scaled(value as int, max as int)) as u8)], triggered),
        Modulator::PolarCcSwitch { cc_low, cc_high, cc_switch, .. } => {
            let low = value < 63;
            let level = if low {
                match cc_low {
                    Some(c) => seq![MidiMessage::Three(cc, c, polar_low_value(value as int) as u8)],
                    None => Seq::empty(),
                }
            } else {
                match cc_high {
                    Some(c) => seq![MidiMessage::Three(cc, c, polar_high_value(value as int) as u8)],
                    None => Seq::empty(),
                }
            };
            let switch = match cc_switch {
                Some(c) => seq![MidiMessage::Three(cc, c, if low { 0u8 } else { 127u8 })],
                None => Seq::empty(),
            };
            (level + switch, triggered)
        },
        Modulator::MaxCc(id, max, _) => (seq![MidiMessage::Three(cc, id, scaled(value as int, max as int) as u8)], triggered),
        Modulator::PitchBend(_) => {
            let (lsb, msb) = position_bytes(polar_bend_position(value as int));
            (seq![MidiMessage::Three(status(224, channel as int) as u8, lsb, msb)], triggered)
        },
        Modulator::PositivePitchBend(_) => {
            let (lsb, msb) = position_bytes(positive_bend_position(value as int));
            (seq![MidiMessage::Three(status(224, channel as int) as u8, lsb, msb)], triggered)
        },
        Modulator::TriggerWhen(condition, (note, velocity)) => {
            let passes = match condition {
                TriggerCondition::Gt(v) => value > v,
                TriggerCondition::Lt(v) => value < v,
            };
            if passes {
                if !triggered.contains(note) {
                    (seq![MidiMessage::Three(status(144, channel as int) as u8, note, velocity)], triggered.insert(note))
                } else {
                    (Seq::empty(), triggered)
                }
            } else if triggered.contains(note) {
                (seq![MidiMessage::Three(status(128, channel as int) as u8, note, 0)], triggered.remove(note))
            } else {
                (Seq::empty(), triggered)
            }
        },
        Modulator::Multi(_) => (Seq::empty(), triggered),
    }
}

/// A centred control with a switch controller ends what it sends with the switch: off (0)
/// when turned below the centre, on (127) at or above it. Below the centre it first sets
/// its lower controller, at or above its upper one.
pub proof fn law_polar_switch_flips_at_the_centre(
    cc_low: Option<u8>,
    cc_high: Option<u8>,
    switch: u8,
    default: u8,
    channel: u8,
    value: u8,
    triggered: Set<u8>,
)
    ensures
        ({
            let m = Modulator::PolarCcSwitch { cc_low, cc_high, cc_switch: Some(switch), default };
            let sent = send_one(m, channel, value, triggered).0;
            let cc = status(176, channel as int) as u8;
            &&& sent.len() >= 1
            &&& value < 63 ==> sent.last() == MidiMessage::Three(cc, switch, 0)
            &&& value >= 63 ==> sent.last() == MidiMessage::Three(cc, switch, 127)
            &&& value < 63 && cc_low is Some ==> (sent.len() == 2 && (sent[0] matches MidiMessage::Three(s, c, _)
                && s == cc && c == cc_low->0))
            &&& value >= 63 && cc_high is Some ==> (sent.len() == 2 && (sent[0] matches MidiMessage::Three(s, c, _)
                && s == cc && c == cc_high->0))
        }),
{
}

/// A plain controller sends the value to its controller, an inverted one sends what
/// brings the value up to 127, and aftertouch sends the value as channel pressure.
pub proof fn law_plain_and_inverted_controllers(id: u8, default: u8, channel: u8, value: u8, triggered: Set<u8>)
    requires
        value <= 127,
    ensures
        ({
            let cc = status(176, channel as int) as u8;
            &&& send_one(Modulator::Cc(id, default), channel, value, triggered).0 == seq![MidiMessage::Three(cc, id, value)]
            &&& send_one(Modulator::InvertCc(id, default), channel, value, triggered).0.len() == 1
            &&& send_one(Modulator::InvertCc(id, default), channel, value, triggered).0[0] matches MidiMessage::Three(s, c, v)
                && s == cc && c == id && v + value == 127
            &&& send_one(Modulator::Aftertouch(default), channel, value, triggered).0
                == seq![MidiMessage::Two(status(208, channel as int) as u8, value)]
        }),
{
}

/// A controller with a maximum scales the value onto 0 to the maximum, rounded down: the
/// full value gives the maximum, none gives 0, and a larger value never gives less. Its
/// inverted form sends the rest of the maximum.
pub proof fn law_scaled_controllers(max: u8, a: u8, b: u8)
    requires
        max <= 127,
        a <= b <= 127,
    ensures
        scaled(127, max as int) == max,
        scaled(0, max as int) == 0,
        0 <= scaled(a as int, max as int) <= scaled(b as int, max as int) <= max,
        scaled(a as int, max as int) * 127 <= a * max < (scaled(a as int, max as int) + 1) * 127,
{
    assert(a * max <= b * max) by (nonlinear_arith)
        requires
            a <= b,
    ;
    vstd::arithmetic::div_mod::lemma_div_is_ordered(a * max, b * max, 127);
    assert(b * max <= 127 * max) by (nonlinear_arith)
        requires
            b <= 127,
    ;
    vstd::arithmetic::div_mod::lemma_div_is_ordered(b * max, 127 * max, 127);
    assert(127 * max / 127 == max as int) by (nonlinear_arith);
    vstd::arithmetic::div_mod::lemma_fundamental_div_mod(a * max, 127);
    assert(0 <= a * max);
}

/// A centred control: turned fully down its lower controller gets 127, fully up its upper
/// controller gets 127; at the centre both get 0; and the further from the centre, the
/// more each gets.
pub proof fn law_polar_levels_grow_from_the_centre(a: int, b: int)
    requires
        0 <= a <= b <= 127,
    ensures
        polar_low_value(0) == 127,
        polar_low_value(62) == 0,
        polar_high_value(127) == 127,
        polar_high_value(64) == 0,
        b < 63 ==> polar_low_value(b) <= polar_low_value(a) <= 127,
        63 <= a ==> 0 <= polar_high_value(a) <= polar_high_value(b) <= 127,
{
    if b < 63 {
        assert((63 - b) * (63 - b) * 127 <= (63 - a) * (63 - a) * 127) by (nonlinear_arith)
            requires
                0 <= a <= b < 63,
        ;
        vstd::arithmetic::div_mod::lemma_div_is_ordered((63 - b) * (63 - b) * 127, (63 - a) * (63 - a) * 127, 3969);
        assert((63 - a) * (63 - a) * 127 <= 3969 * 127) by (nonlinear_arith)
            requires
                0 <= a < 63,
        ;
        vstd::arithmetic::div_mod::lemma_div_is_ordered((63 - a) * (63 - a) * 127, 3969int * 127, 3969);
        assert((63 - b) * (63 - b) * 127 >= 0) by (nonlinear_arith)
            requires
                b < 63,
        ;
    }
    if 63 <= a && a > 64 {
        assert((a - 64) * 127 <= (b - 64) * 127) by (nonlinear_arith)
            requires
                a <= b,
        ;
        vstd::arithmetic::div_mod::lemma_div_is_ordered((a - 64) * 127, (b - 64) * 127, 63);
        assert((b - 64) * 127 <= 63 * 127) by (nonlinear_arith)
            requires
                b <= 127,
        ;
        vstd::arithmetic::div_mod::lemma_div_is_ordered((b - 64) * 127, 63int * 127, 63);
    }
    if 63 <= a && a <= 64 && b > 64 {
        assert((b - 64) * 127 <= 63 * 127) by (nonlinear_arith)
            requires
                b <= 127,
        ;
        vstd::arithmetic::div_mod::lemma_div_is_ordered((b - 64) * 127, 63int * 127, 63);
    }
}

/// A pitch bend from a centred control rests in the middle (8192) from 63 to 64, bends
/// fully down at 0 and fully up at 127, and never bends back as the value rises; a bend
/// that only goes up starts from the middle at 0.
pub proof fn law_pitch_bends(a: int, b: int)
    requires
        0 <= a <= b <= 127,
    ensures
        polar_bend_position(0) == 0,
        polar_bend_position(63) == 8192 && polar_bend_position(64) == 8192,
        polar_bend_position(127) == 16383,
        polar_bend_position(a) <= polar_bend_position(b) <= 16383,
        positive_bend_position(0) == 8192 && positive_bend_position(127) == 16383,
        positive_bend_position(a) <= positive_bend_position(b),
        position_bytes(8192) == (0u8, 64u8),
{
    if b < 63 {
        assert(a * 8192 <= b * 8192) by (nonlinear_arith) requires a <= b;
        vstd::arithmetic::div_mod::lemma_div_is_ordered(a * 8192, b * 8192, 63);
    } else if a < 63 {
        assert(a * 8192 <= 63 * 8192) by (nonlinear_arith) requires a < 63;
        vstd::arithmetic::div_mod::lemma_div_is_ordered(a * 8192, 62int * 8192 + 8191, 63);
    } else if 64 < a && b < 127 {
        assert((a - 64) * 8192 <= (b - 64) * 8192) by (nonlinear_arith) requires a <= b;
        vstd::arithmetic::div_mod::lemma_div_is_ordered((a - 64) * 8192, (b - 64) * 8192, 63);
    }
    if 64 < b && b < 127 {
        assert((b - 64) * 8192 <= 62 * 8192) by (nonlinear_arith) requires b <= 126;
        vstd::arithmetic::div_mod::lemma_div_is_ordered((b - 64) * 8192, 62int * 8192, 63);
    }
    if b < 127 {
        assert(a * 8192 <= b * 8192) by (nonlinear_arith) requires a <= b;
        vstd::arithmetic::div_mod::lemma_div_is_ordered(a * 8192, b * 8192, 127);
        assert(b * 8192 <= 126 * 8192) by (nonlinear_arith) requires b <= 126;
        vstd::arithmetic::div_mod::lemma_div_is_ordered(b * 8192, 126int * 8192, 127);
    } else if a < 127 {
        assert(a * 8192 <= 126 * 8192) by (nonlinear_arith) requires a <= 126;
        vstd::arithmetic::div_mod::lemma_div_is_ordered(a * 8192, 126int * 8192, 127);
    }
}

/// What a list of modulators sends for a controller value, in order.
pub open spec fn send_all(ms: Seq<Modulator>, channel: u8, value: u8, triggered: Set<u8>) -> (Seq<MidiMessage>, Set<u8>)
    decreases ms.len(),
{
    if ms.len() == 0 {
        (Seq::empty(), triggered)
    } else {
        let (before, t) = send_all(ms.drop_last(), channel, value, triggered);
        let (last, t2) = send_one(ms.last(), channel, value, t);
        (before + last, t2)
    }
}

/// What one modulator sends to reset itself to its default.
pub open spec fn default_one(m: Modulator, whole: Seq<Modulator>, channel: u8, triggered: Set<u8>) -> (Seq<MidiMessage>, Set<u8>) {
    let cc = status(176, channel as int) as u8;
    match m {
        Modulator::Cc(id, value) => (seq![MidiMessage::Three(cc, id, value)], triggered),
        Modulator::Aftertouch(value) => (seq![MidiMessage::Two(status(208, channel as int) as u8, value)], triggered),
        Modulator::InvertCc(id, value) => (seq![MidiMessage::Three(cc, id, (127 - value) as u8)], triggered),
        Modulator::PolarCcSwitch { default, .. } => send_all(whole, channel, default, triggered),
        Modulator::MaxCc(id, max, value) => (seq![MidiMessage::Three(cc, id, if value < max { value } else { max })], triggered),
        Modulator::InvertMaxCc(id, max, value) => (seq![MidiMessage::Three(cc, id, (max - if value < max { value } else { max }) as u8)], triggered),
        Modulator::PitchBend(p) => {
            let (lsb, msb) = position_bytes(p as int);
            (seq![MidiMessage::Three(status(224, channel as int) as u8, lsb, msb)], triggered)
        },
        Modulator::PositivePitchBend(p) => {
            let (lsb, msb) = position_bytes(p as int);
            (seq![MidiMessage::Three(status(224, channel as int) as u8, lsb, msb)], triggered)
        },
        Modulator::TriggerWhen(..) => (Seq::empty(), triggered),
        Modulator::Multi(_) => (Seq::empty(), triggered),
    }
}

/// What a list of modulators sends to reset, in order.
pub open spec fn default_all(ms: Seq<Modulator>, whole: Seq<Modulator>, channel: u8, triggered: Set<u8>) -> (Seq<MidiMessage>, Set<u8>)
    decreases ms.len(),
{
    if ms.len() == 0 {
        (Seq::empty(), triggered)
    } else {
        let (before, t) = default_all(ms.drop_last(), whole, channel, triggered);
        let (last, t2) = default_one(ms.last(), whole, channel, t);
        (before + last, t2)
    }
}

/// Sends a controller's value to a device as control changes, aftertouch, pitch bend or
/// threshold-triggered notes.
pub struct MidiModulator {
    channel: u8,
    modulator: Modulator,
    rx_port: Option<MidiPortConfig>,
    triggered: HashSet<u8>,
    outbox: Vec<MidiMessage>,
}

impl MidiModulator {
    pub closed spec fn channel(&self) -> u8 {
        self.channel
    }

    pub closed spec fn modulator(&self) -> Modulator {
        self.modulator
    }

    pub closed spec fn rx_port(&self) -> Option<MidiPortConfig> {
        self.rx_port
    }

    /// The port that reports the controller's value back, if any.
    pub fn get_rx_port(&self) -> (r: &Option<MidiPortConfig>)
        ensures
            *r == self.rx_port(),
    {
        &self.rx_port
    }

    pub closed spec fn triggered(&self) -> Set<u8> {
        self.triggered@
    }

    pub closed spec fn sent(&self) -> Seq<MidiMessage> {
        self.outbox@
    }

    /// A channel every message kind can use, and values the messages can carry.
    pub closed spec fn well_formed(&self) -> bool {
        &&& channel_fits(224, self.channel as int)
        &&& forall|i: int| 0 <= i < spec_all(self.modulator).len() ==> modulator_ok(#[trigger] spec_all(self.modulator)[i])
    }

    /// A modulator that can send has a channel every message kind can use.
    pub proof fn lemma_channel_fits(&self)
        requires
            self.well_formed(),
        ensures
            channel_fits(224, self.channel() as int),
    {
    }

    pub fn new(channel: u8, modulator: Modulator, rx_port: Option<MidiPortConfig>) -> (r: MidiModulator)
        ensures
            r.channel() == channel,
            r.modulator() == modulator,
            r.rx_port() == rx_port,
            r.triggered() == Set::<u8>::empty(),
            r.sent() == Seq::<MidiMessage>::empty(),
            r.well_formed() == (channel_fits(224, channel as int)
                && forall|i: int| 0 <= i < spec_all(modulator).len() ==> modulator_ok(#[trigger] spec_all(modulator)[i])),
    {
        MidiModulator { channel, modulator, rx_port, triggered: HashSet::new(), outbox: Vec::new() }
    }

    fn send_modulator(&mut self, m: &Modulator, value: u8)
        requires
            channel_fits(224, old(self).channel() as int),
            value <= 127,
        ensures
            ({
                let (msgs, t) = send_one(*m, old(self).channel(), value, old(self).triggered());
                &&& final(self).sent() == old(self).sent() + msgs
                &&& final(self).triggered() == t
            }),
            final(self).channel() == old(self).channel(),
            final(self).modulator() == old(self).modulator(),
            final(self).rx_port() == old(self).rx_port(),
    {
        broadcast use vstd::std_specs::hash::group_hash_axioms;
        let cc = 176 - 1 + self.channel;
        let ghost before = self.outbox@;
        match m {
            Modulator::Cc(id, _) => {
                self.outbox.push(MidiMessage::Three(cc, *id, value));
            },
            Modulator::Aftertouch(_) => {
                self.outbox.push(MidiMessage::Two(208 - 1 + self.channel, value));
            },
            Modulator::InvertCc(id, _) => {
                self.outbox.push(MidiMessage::Three(cc, *id, 127 - value));
            },
            Modulator::InvertMaxCc(id, max, _) => {
                let u = scale_to(value, *max);
                self.outbox.push(MidiMessage::Three(cc, *id, *max - u));
            },
            Modulator::PolarCcSwitch { cc_low, cc_high, cc_switch, .. } => {
                if value < 63 {
                    if let Some(c) = cc_low {
                        let d = (63 - value) as u32;
                        assert(d <= 63);
                        assert(d * d * 127 <= 63 * 63 * 127) by (nonlinear_arith)
                            requires d <= 63;
                        let level = d * d * 127 / 3969;
                        assert(level <= 127) by (nonlinear_arith)
                            requires level == d * d * 127 / 3969, d * d * 127 <= 63 * 63 * 127;
                        self.outbox.push(MidiMessage::Three(cc, *c, level as u8));
                    }
                } else {
                    if let Some(c) = cc_high {
                        let level: u32 = if value > 64 { (value as u32 - 64) * 127 / 63 } else { 0 };
                        assert(level <= 127) by (nonlinear_arith)
                            requires value <= 127, level == if value > 64 { (value as u32 - 64) * 127 / 63 } else { 0 };
                        self.outbox.push(MidiMessage::Three(cc, *c, level as u8));
                    }
                }
                if let Some(c) = cc_switch {
                    let v = if value < 63 { 0 } else { 127 };
                    self.outbox.push(MidiMessage::Three(cc, *c, v));
                }
                proof {
                    let (msgs, t) = send_one(*m, old(self).channel(), value, old(self).triggered());
                    assert(self.outbox@ =~= before + msgs);
                }
            },
            Modulator::MaxCc(id, max, _) => {
                let u = scale_to(value, *max);
                self.outbox.push(MidiMessage::Three(cc, *id, u));
            },
            Modulator::PitchBend(_) => {
                let position = polar_position(value);
                let (lsb, msb) = bend_bytes(position);
                self.outbox.push(MidiMessage::Three(224 - 1 + self.channel, lsb, msb));
            },
            Modulator::PositivePitchBend(_) => {
                let position: u32 = if value >= 127 { 16383 } else { value as u32 * 8192 / 127 + 8192 };
                let (lsb, msb) = bend_bytes(position);
                self.outbox.push(MidiMessage::Three(224 - 1 + self.channel, lsb, msb));
            },
            Modulator::TriggerWhen(condition, (note, velocity)) => {
                if condition.check(value) {
                    if !self.triggered.contains(note) {
                        self.outbox.push(MidiMessage::Three(144 - 1 + self.channel, *note, *velocity));
                        self.triggered.insert(*note);
                    }
                } else {
                    if self.triggered.contains(note) {
                        self.outbox.push(MidiMessage::Three(128 - 1 + self.channel, *note, 0));
                        self.triggered.remove(note);
                    }
                }
                proof {
                    let (msgs, t) = send_one(*m, old(self).channel(), value, old(self).triggered());
                    assert(self.outbox@ =~= before + msgs);
                }
            },
            Modulator::Multi(_) => {},
        }
        proof {
            let (msgs, t) = send_one(*m, old(self).channel(), value, old(self).triggered());
            assert(self.outbox@ =~= before + msgs);
        }
    }

    /// Sends a centred value given in twelfths of the range (-12 the bottom, 12 the top):
    /// pitch-bend modulators get its bend position, the others its controller value.
    pub fn send_polar_twelfths(&mut self, twelfths: i32)
        requires
            channel_fits(224, old(self).channel() as int),
        ensures
            old(self).well_formed() ==> final(self).well_formed(),
            final(self).channel() == old(self).channel(),
            final(self).modulator() == old(self).modulator(),
            final(self).rx_port() == old(self).rx_port(),
            match old(self).modulator() {
                Modulator::PitchBend(..) | Modulator::PositivePitchBend(..) => {
                    let (lsb, msb) = position_bytes(twelfths_bend_position(twelfths as int));
                    &&& final(self).sent() == old(self).sent().push(
                        MidiMessage::Three(status(224, old(self).channel() as int) as u8, lsb, msb))
                    &&& final(self).triggered() == old(self).triggered()
                },
                _ => {
                    let (msgs, t) = send_all(
                        spec_all(old(self).modulator()),
                        old(self).channel(),
                        twelfths_midi_value(twelfths as int) as u8,
                        old(self).triggered(),
                    );
                    &&& final(self).sent() == old(self).sent() + msgs
                    &&& final(self).triggered() == t
                },
            },
    {
        match self.modulator {
            Modulator::PitchBend(..) | Modulator::PositivePitchBend(..) => {
                let position = twelfths_position(twelfths);
                let (lsb, msb) = bend_bytes(position);
                self.outbox.push(MidiMessage::Three(224 - 1 + self.channel, lsb, msb));
            }
            _ => {
                let value = twelfths_midi(twelfths);
                self.send(value);
            }
        }
    }

    /// Sends a controller value through every modulator this one stands for.
    pub fn send(&mut self, value: u8)
        requires
            channel_fits(224, old(self).channel() as int),
            value <= 127,
        ensures
            ({
                let (msgs, t) = send_all(spec_all(old(self).modulator()), old(self).channel(), value, old(self).triggered());
                &&& final(self).sent() == old(self).sent() + msgs
                &&& final(self).triggered() == t
            }),
            final(self).channel() == old(self).channel(),
            final(self).modulator() == old(self).modulator(),
            final(self).rx_port() == old(self).rx_port(),
    {
        let mut modulator = Modulator::Multi(Vec::new());
        std::mem::swap(&mut modulator, &mut self.modulator);
        self.send_through(&modulator, value);
        self.modulator = modulator;
    }

    fn send_through(&mut self, modulator: &Modulator, value: u8)
        requires
            channel_fits(224, old(self).channel() as int),
            value <= 127,
        ensures
            ({
                let (msgs, t) = send_all(spec_all(*modulator), old(self).channel(), value, old(self).triggered());
                &&& final(self).sent() == old(self).sent() + msgs
                &&& final(self).triggered() == t
            }),
            final(self).channel() == old(self).channel(),
            final(self).modulator() == old(self).modulator(),
            final(self).rx_port() == old(self).rx_port(),
    {
        let ghost start_sent = self.outbox@;
        let ghost start_t = self.triggered@;
        match modulator {
            Modulator::Multi(values) => {
                let mut i: usize = 0;
                while i < values.len()
                    invariant
                        0 <= i <= values@.len(),
                        channel_fits(224, self.channel as int),
                        value <= 127,
                        self.channel == old(self).channel(),
                        self.rx_port == old(self).rx_port(),
                        self.modulator == old(self).modulator,
                        ({
                            let (msgs, t) = send_all(values@.subrange(0, i as int), self.channel, value, start_t);
                            &&& self.outbox@ == start_sent + msgs
                            &&& self.triggered@ == t
                        }),
                    decreases values@.len() - i,
                {
                    proof {
                        assert(values@.subrange(0, i + 1).drop_last() =~= values@.subrange(0, i as int));
                    }
                    self.send_modulator(&values[i], value);
                    i += 1;
                }
                proof {
                    assert(values@.subrange(0, values@.len() as int) =~= values@);
                    assert(spec_all(*modulator) == values@);
                }
            },
            _ => {
                self.send_modulator(modulator, value);
                proof {
                    assert(spec_all(*modulator) == seq![*modulator]);
                    assert(seq![*modulator].drop_last() =~= Seq::<Modulator>::empty());
                    assert(seq![*modulator].last() == *modulator);
                    let (m0, t0) = send_all(Seq::<Modulator>::empty(), old(self).channel(), value, start_t);
                    assert(m0 == Seq::<MidiMessage>::empty() && t0 == start_t);
                    let (m1, t1) = send_one(*modulator, old(self).channel(), value, start_t);
                    assert(send_all(seq![*modulator], old(self).channel(), value, start_t) == (m0 + m1, t1));
                    assert(m0 + m1 =~= m1);
                }
            },
        }
    }

    /// Sends every modulator's default value.
    pub fn send_default(&mut self)
        requires
            old(self).well_formed(),
        ensures
            ({
                let (msgs, t) = default_all(spec_all(old(self).modulator()), spec_all(old(self).modulator()), old(self).channel(), old(self).triggered());
                &&& final(self).sent() == old(self).sent() + msgs
                &&& final(self).triggered() == t
            }),
            final(self).channel() == old(self).channel(),
            final(self).modulator() == old(self).modulator(),
            final(self).rx_port() == old(self).rx_port(),
            final(self).well_formed(),
    {
        let mut modulator = Modulator::Multi(Vec::new());
        std::mem::swap(&mut modulator, &mut self.modulator);
        let ghost start_sent = self.outbox@;
        let ghost start_t = self.triggered@;
        match &modulator {
            Modulator::Multi(values) => {
                let mut i: usize = 0;
                while i < values.len()
                    invariant
                        0 <= i <= values@.len(),
                        channel_fits(224, self.channel as int),
                        forall|k: int| 0 <= k < values@.len() ==> modulator_ok(#[trigger] values@[k]),
                        self.channel == old(self).channel(),
                        self.rx_port == old(self).rx_port(),
                        ({
                            let (msgs, t) = default_all(values@.subrange(0, i as int), spec_all(modulator), self.channel, start_t);
                            &&& self.outbox@ == start_sent + msgs
                            &&& self.triggered@ == t
                        }),
                    decreases values@.len() - i,
                {
                    proof {
                        assert(values@.subrange(0, i + 1).drop_last() =~= values@.subrange(0, i as int));
                    }
                    self.default_modulator(&values[i], &modulator);
                    i += 1;
                }
                proof {
                    assert(values@.subrange(0, values@.len() as int) =~= values@);
                    assert(spec_all(modulator) == values@);
                }
            },
            _ => {
                proof {
                    assert(modulator_ok(spec_all(modulator)[0]));
                }
                self.default_modulator(&modulator, &modulator);
                proof {
                    assert(spec_all(modulator) == seq![modulator]);
                    assert(seq![modulator].drop_last() =~= Seq::<Modulator>::empty());
                    assert(seq![modulator].last() == modulator);
                    let (m0, t0) = default_all(Seq::<Modulator>::empty(), seq![modulator], old(self).channel(), start_t);
                    let (m1, t1) = default_one(modulator, seq![modulator], old(self).channel(), start_t);
                    assert(default_all(seq![modulator], seq![modulator], old(self).channel(), start_t) == (m0 + m1, t1));
                    assert(m0 + m1 =~= m1);
                }
            },
        }
        self.modulator = modulator;
    }

    fn default_modulator(&mut self, m: &Modulator, whole: &Modulator)
        requires
            channel_fits(224, old(self).channel() as int),
            modulator_ok(*m),
        ensures
            ({
                let (msgs, t) = default_one(*m, spec_all(*whole), old(self).channel(), old(self).triggered());
                &&& final(self).sent() == old(self).sent() + msgs
                &&& final(self).triggered() == t
            }),
            final(self).channel() == old(self).channel(),
            final(self).modulator() == old(self).modulator(),
            final(self).rx_port() == old(self).rx_port(),
    {
        let cc = 176 - 1 + self.channel;
        let ghost before = self.outbox@;
        match m {
            Modulator::Cc(id, value) => {
                self.outbox.push(MidiMessage::Three(cc, *id, *value));
            },
            Modulator::Aftertouch(value) => {
                self.outbox.push(MidiMessage::Two(208 - 1 + self.channel, *value));
            },
            Modulator::InvertCc(id, value) => {
                self.outbox.push(MidiMessage::Three(cc, *id, 127 - *value));
            },
            Modulator::PolarCcSwitch { default, .. } => {
                self.send_through(whole, *default);
            },
            Modulator::MaxCc(id, max, value) => {
                let v = if *value < *max { *value } else { *max };
                self.outbox.push(MidiMessage::Three(cc, *id, v));
            },
            Modulator::InvertMaxCc(id, max, value) => {
                let v = if *value < *max { *value } else { *max };
                self.outbox.push(MidiMessage::Three(cc, *id, *max - v));
            },
            Modulator::PitchBend(p) => {
                let (lsb, msb) = bend_bytes(*p as u32);
                self.outbox.push(MidiMessage::Three(224 - 1 + self.channel, lsb, msb));
            },
            Modulator::PositivePitchBend(p) => {
                let (lsb, msb) = bend_bytes(*p as u32);
                self.outbox.push(MidiMessage::Three(224 - 1 + self.channel, lsb, msb));
            },
            Modulator::TriggerWhen(..) => {},
            Modulator::Multi(_) => {},
        }
        proof {
            let (msgs, t) = default_one(*m, spec_all(*whole), old(self).channel(), old(self).triggered());
            assert(self.outbox@ =~= before + msgs);
        }
    }

    /// Hands out the messages produced so far.
    pub fn take_messages(&mut self) -> (r: Vec<MidiMessage>)
        ensures
            r@ == old(self).sent(),
            final(self).sent() == Seq::<MidiMessage>::empty(),
            final(self).triggered() == old(self).triggered(),
            final(self).channel() == old(self).channel(),
            final(self).modulator() == old(self).modulator(),
            final(self).rx_port() == old(self).rx_port(),
    {
        let mut out: Vec<MidiMessage> = Vec::new();
        std::mem::swap(&mut out, &mut self.outbox);
        out
    }
}

/// A controller value scaled onto `0..=max`.
fn scale_to(value: u8, max: u8) -> (r: u8)
    requires
        value <= 127,
    ensures
        r == scaled(value as int, max as int),
        r <= max,
{
    assert(value as u32 * max as u32 <= 127 * 255) by (nonlinear_arith)
        requires value <= 127, max <= 255;
    let u = value as u32 * max as u32 / 127;
    assert(u <= max) by (nonlinear_arith)
        requires u == value as u32 * max as u32 / 127, value <= 127;
    if u > 127 { 127 } else { u as u8 }
}

/// The bend position for a centred controller value.
pub(crate) fn polar_position(value: u8) -> (r: u32)
    ensures
        r == polar_bend_position(value as int),
        r <= 16383,
{
    let v = value as u32;
    if v < 63 {
        assert(v * 8192 / 63 <= 16383) by (nonlinear_arith) requires v < 63;
        v * 8192 / 63
    } else if v <= 64 {
        8192
    } else if v >= 127 {
        16383
    } else {
        assert((v - 64) * 8192 / 63 <= 8191) by (nonlinear_arith) requires 64 < v < 127;
        (v - 64) * 8192 / 63 + 8192
    }
}


/// The 14-bit bend position of a centred value given in twelfths: the centre 8192 moved
/// by 8192/12 per twelfth, rounded down; at or past the ends, 0 and 16383.
pub open spec fn twelfths_bend_position(t: int) -> int {
    if t <= -12 { 0 } else if t >= 12 { 16383 } else { (t * 2048) / 3 + 8192 }
}

/// The controller value of a centred value given in twelfths: the range -12..12 spread
/// over 0..127, rounded down and kept within it.
pub open spec fn twelfths_midi_value(t: int) -> int {
    let v = ((t + 12) * 127) / 24;
    if v < 0 { 0 } else if v > 127 { 127 } else { v }
}

fn twelfths_position(t: i32) -> (r: u32)
    ensures
        r == twelfths_bend_position(t as int),
        r <= 16383,
{
    if t <= -12 {
        0
    } else if t >= 12 {
        16383
    } else {
        let n = t as i64 * 2048;
        let q = if n >= 0 { n / 3 } else { -((-n + 2) / 3) };
        proof {
            if n < 0 {
                assert(q == n / 3) by (nonlinear_arith)
                    requires
                        n < 0,
                        q == -((-n + 2) / 3),
                ;
            }
        }
        (q + 8192) as u32
    }
}

fn twelfths_midi(t: i32) -> (r: u8)
    ensures
        r == twelfths_midi_value(t as int),
        r <= 127,
{
    let n = (t as i64 + 12) * 127;
    let v = if n >= 0 { n / 24 } else { -((-n + 23) / 24) };
    proof {
        if n < 0 {
            assert(v == n / 24) by (nonlinear_arith)
                requires
                    n < 0,
                    v == -((-n + 23) / 24),
            ;
        }
    }
    if v < 0 { 0 } else if v > 127 { 127 } else { v as u8 }
}

} // verus!
