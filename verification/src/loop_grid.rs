use vstd::prelude::*;

use crate::loop_event::{sorted_events, upper_index, LoopEvent};
use crate::loop_recorder::LoopRecorder;
use crate::loop_state::{current, history_ok, model_freeze, model_redo, model_set, model_undo, model_unfreeze, search_result, LoopCollection, LoopState};
use crate::transform_map::lookup;
use crate::loop_transform::{apply_defined, spec_apply, LoopTransform};
use crate::midi_time::{fits, floor_ticks, lemma_time_at, lemma_view_determines, lemma_view_fits, max_fractions, min_fractions, time_at, wrap, MidiTime};
use crate::output_value::OutputValue;
use crate::text::{decimal_digits, decimal_string, text_eq};
use crate::trigger_history::{occurrences, TriggerHistory, HISTORY_LENGTH};
use crate::chunk::{MidiMap, RepeatMode};
use crate::grid_map::{held_unsuppressed, never_suppressed, place_chunks, placed_cells, placement_fits, straight_triggers, triggers_where, ChunkPlacement, GridMapping};
use std::collections::HashMap;
use std::collections::HashSet;
use vstd::arithmetic::power2::pow2;
use vstd::std_specs::iter::IteratorSpec;

verus! {

/// Grid triggers played by the controller: the first 80 on notes from 8, the rest from 96.
pub const PLAYABLE_GRID_SIZE: u32 = 112;

/// Note of the first grid trigger.
pub const GRID_NOTE_START: u8 = 8;

/// Note of the first trigger of the second grid block.
pub const GRID_2_NOTE_START: u8 = 96;

/// How a grid press is played: at once, at the next step, repeated, or cycled.
#[derive(Debug, Copy, Clone, PartialEq, Eq, Structural)]
pub enum TriggerMode {
    Immediate,
    Quantized,
    Repeat,
    Cycle,
}

/// The number each trigger mode is stored under.
pub open spec fn trigger_mode_number(mode: TriggerMode) -> int {
    match mode {
        TriggerMode::Immediate => 0,
        TriggerMode::Quantized => 1,
        TriggerMode::Repeat => 2,
        TriggerMode::Cycle => 3,
    }
}

impl TriggerMode {
    /// The mode stored under `id`; unknown numbers mean `Immediate`.
    pub fn from_id(id: usize) -> (r: TriggerMode)
        ensures
            0 <= id <= 3 ==> trigger_mode_number(r) == id,
            id > 3 ==> r == TriggerMode::Immediate,
    {
        match id {
            1 => TriggerMode::Quantized,
            2 => TriggerMode::Repeat,
            3 => TriggerMode::Cycle,
            _ => TriggerMode::Immediate,
        }
    }

    /// The number this mode is stored under.
    pub fn to_id(&self) -> (r: usize)
        ensures
            r == trigger_mode_number(*self),
    {
        match self {
            TriggerMode::Immediate => 0,
            TriggerMode::Quantized => 1,
            TriggerMode::Repeat => 2,
            TriggerMode::Cycle => 3,
        }
    }

    /// The mode used while the override button is held: repeating, or quantized
    /// when the selected mode already repeats.
    pub fn override_mode(&self) -> (r: TriggerMode)
        ensures
            r == (if *self == TriggerMode::Repeat { TriggerMode::Quantized } else { TriggerMode::Repeat }),
    {
        match self {
            TriggerMode::Repeat => TriggerMode::Quantized,
            _ => TriggerMode::Repeat,
        }
    }
}

/// Storing a mode and reading it back gives the same mode.
pub proof fn law_trigger_mode_round_trip(mode: TriggerMode)
    ensures
        0 <= trigger_mode_number(mode) <= 3,
        forall|r: TriggerMode| trigger_mode_number(r) == trigger_mode_number(mode) ==> r == mode,
{
}

/// Buttons of another controller that act on the grid.
#[derive(Debug, Copy, Clone, PartialEq, Eq, Structural)]
pub enum LoopGridRemoteEvent {
    DoubleButton(bool),
    LoopButton(bool),
    PrepareButton(bool),
}

/// A light colour of the controller's palette. `Unset` leaves the choice to a fallback.
#[derive(Debug, Copy, Clone, PartialEq, Eq, Structural, Hash)]
pub enum Light {
    Value(u8),
    ValueLow(u8),
    Yellow,
    YellowMed,
    Lime,
    LimeLow,
    Purple,
    Green,
    GreenMed,
    GreenLow,
    GreenDark,
    Orange,
    OrangeMed,
    OrangeLow,
    Red,
    RedMed,
    RedLow,
    BlueDark,
    White,
    WhiteMed,
    Off,
    Unset,
}

/// The palette number sent for a light.
pub open spec fn light_palette_value(light: Light) -> u8 {
    match light {
        Light::Yellow | Light::YellowMed => 22,
        Light::Lime => 37,
        Light::LimeLow => 40,
        Light::Purple => 97,
        Light::Green | Light::GreenMed | Light::GreenLow | Light::GreenDark => 43,
        Light::Orange | Light::OrangeMed | Light::OrangeLow => 13,
        Light::Red | Light::RedMed | Light::RedLow => 1,
        Light::BlueDark => 85,
        Light::White => 127,
        Light::Value(value) => value,
        _ => 0,
    }
}

/// The hue of a light in the controller's colour wheel.
pub open spec fn light_hue(light: Light) -> u8 {
    match light {
        Light::Off | Light::Unset => 0,
        Light::White | Light::WhiteMed => 127,
        Light::Yellow | Light::YellowMed => 19,
        Light::Lime | Light::LimeLow => 31,
        Light::Purple => 95,
        Light::Green | Light::GreenMed | Light::GreenLow | Light::GreenDark => 40,
        Light::Orange | Light::OrangeMed | Light::OrangeLow => 13,
        Light::Red | Light::RedMed | Light::RedLow => 1,
        Light::BlueDark => 85,
        Light::Value(value) | Light::ValueLow(value) => value,
    }
}

/// The brightness of a light.
pub open spec fn light_intensity(light: Light) -> u8 {
    match light {
        Light::Off | Light::Unset => 0,
        Light::GreenDark => 24,
        Light::GreenLow | Light::LimeLow | Light::RedLow | Light::OrangeLow | Light::ValueLow(..) => 48,
        Light::GreenMed | Light::YellowMed | Light::RedMed | Light::OrangeMed | Light::WhiteMed => 96,
        _ => 127,
    }
}

impl Light {
    /// This light, or `value` when this one is unset.
    pub fn unwrap_or(self, value: Light) -> (r: Light)
        ensures
            r == (if self == Light::Unset { value } else { self }),
    {
        match self {
            Light::Unset => value,
            _ => self,
        }
    }

    /// The dimmed form of a palette light; named colours stay as they are.
    pub fn low(&self) -> (r: Light)
        ensures
            r == (match *self {
                Light::Value(v) => Light::ValueLow(v),
                other => other,
            }),
    {
        match self {
            Light::Value(value) => Light::ValueLow(*value),
            _ => *self,
        }
    }

    /// The palette number sent for this light.
    pub fn value(&self) -> (r: u8)
        ensures
            r == light_palette_value(*self),
    {
        match self {
            Light::Yellow => 22,
            Light::YellowMed => 22,
            Light::Lime => 37,
            Light::LimeLow => 40,
            Light::Purple => 97,
            Light::Green => 43,
            Light::GreenMed => 43,
            Light::GreenLow => 43,
            Light::GreenDark => 43,
            Light::Orange => 13,
            Light::OrangeMed => 13,
            Light::OrangeLow => 13,
            Light::Red => 1,
            Light::RedMed => 1,
            Light::RedLow => 1,
            Light::BlueDark => 85,
            Light::White => 127,
            Light::Value(value) => *value,
            _ => 0,
        }
    }
}

/// The hue of a light in the controller's colour wheel.
pub fn light_to_hue(light: Light) -> (r: u8)
    ensures
        r == light_hue(light),
{
    match light {
        Light::Off | Light::Unset => 0,
        Light::White | Light::WhiteMed => 127,
        Light::Yellow | Light::YellowMed => 19,
        Light::Lime | Light::LimeLow => 31,
        Light::Purple => 95,
        Light::Green | Light::GreenMed | Light::GreenLow | Light::GreenDark => 40,
        Light::Orange | Light::OrangeMed | Light::OrangeLow => 13,
        Light::Red | Light::RedMed | Light::RedLow => 1,
        Light::BlueDark => 85,
        Light::Value(value) | Light::ValueLow(value) => value,
    }
}

/// The brightness of a light.
pub fn light_to_intensity(light: Light) -> (r: u8)
    ensures
        r == light_intensity(light),
{
    match light {
        Light::Off | Light::Unset => 0,
        Light::GreenDark => 24,
        Light::GreenLow | Light::LimeLow | Light::RedLow | Light::OrangeLow | Light::ValueLow(..) => 48,
        Light::GreenMed | Light::YellowMed | Light::RedMed | Light::OrangeMed | Light::WhiteMed => 96,
        _ => 127,
    }
}

/// The letter of a pitch class (taken modulo 12) and whether it is sharp.
pub open spec fn pitch_class(pc: int) -> (char, bool) {
    let p = pc % 12;
    if p == 0 { ('C', false) }
    else if p == 1 { ('C', true) }
    else if p == 2 { ('D', false) }
    else if p == 3 { ('D', true) }
    else if p == 4 { ('E', false) }
    else if p == 5 { ('F', false) }
    else if p == 6 { ('F', true) }
    else if p == 7 { ('G', false) }
    else if p == 8 { ('G', true) }
    else if p == 9 { ('A', false) }
    else if p == 10 { ('A', true) }
    else { ('B', false) }
}

/// The letter of a pitch class and whether it is sharp.
pub fn pitch_class_name(pitch_class_value: u8) -> (r: (char, bool))
    ensures
        r == pitch_class(pitch_class_value as int),
{
    match pitch_class_value % 12 {
        0 => ('C', false),
        1 => ('C', true),
        2 => ('D', false),
        3 => ('D', true),
        4 => ('E', false),
        5 => ('F', false),
        6 => ('F', true),
        7 => ('G', false),
        8 => ('G', true),
        9 => ('A', false),
        10 => ('A', true),
        _ => ('B', false),
    }
}

/// Order of a key within a block of sixteen: the second and third rows of four swap.
pub open spec fn block_order(j: int) -> int {
    if 4 <= j < 8 { j + 4 } else if 8 <= j < 12 { j - 4 } else { j }
}

/// Where the controller's light feedback for a key sits. On channel 1, the notes from
/// 8 to 87 form five blocks of sixteen (indices from 0, 32, 64, 96 and 112, rows two and
/// three swapped), notes 88..95, 96..111, 112..127 and 0..7 run from 24, 48, 80 and 128;
/// on channel 2, notes 61..68 run from 16 and notes 1..4 from 136.
pub open spec fn feedback_index(channel: int, note: int) -> Option<int> {
    if channel == 1 && 8 <= note < 88 {
        let k = (note - 8) / 16;
        let base: int = if k == 0 { 0 } else if k == 1 { 32 } else if k == 2 { 64 } else if k == 3 { 96 } else { 112 };
        Some(base + block_order((note - 8) % 16))
    } else if channel == 1 && 88 <= note < 96 {
        Some(24 + note - 88)
    } else if channel == 1 && 96 <= note < 112 {
        Some(48 + note - 96)
    } else if channel == 1 && 112 <= note < 128 {
        Some(80 + note - 112)
    } else if channel == 1 && 0 <= note < 8 {
        Some(128 + note)
    } else if channel == 2 && 61 <= note <= 68 {
        Some(16 + note - 61)
    } else if channel == 2 && 1 <= note <= 4 {
        Some(136 + note - 1)
    } else {
        None
    }
}

/// The key whose light sits at place `i` of the feedback (for `i` in 0..140).
pub open spec fn feedback_key(i: int) -> (int, int) {
    if i < 16 {
        (1, 8 + block_order(i))
    } else if i < 24 {
        (2, 61 + i - 16)
    } else if i < 32 {
        (1, 88 + i - 24)
    } else if i < 48 {
        (1, 24 + block_order(i - 32))
    } else if i < 64 {
        (1, 96 + i - 48)
    } else if i < 80 {
        (1, 40 + block_order(i - 64))
    } else if i < 96 {
        (1, 112 + i - 80)
    } else if i < 112 {
        (1, 56 + block_order(i - 96))
    } else if i < 128 {
        (1, 72 + block_order(i - 112))
    } else if i < 136 {
        (1, i - 128)
    } else {
        (2, 1 + i - 136)
    }
}

/// Every key with a light has its place in 0..140, and `feedback_key` finds it again.
pub proof fn lemma_feedback_key_undoes_index(channel: int, note: int)
    requires
        feedback_index(channel, note) is Some,
    ensures
        0 <= feedback_index(channel, note)->0 < 140,
        feedback_key(feedback_index(channel, note)->0) == (channel, note),
{
    if channel == 1 && 8 <= note < 88 {
        let j = (note - 8) % 16;
        let k = (note - 8) / 16;
        assert(note - 8 == 16 * k + j);
        assert(0 <= k < 5);
    }
}

/// Each place of 0..140 is lit by the key `feedback_key` gives.
pub proof fn lemma_feedback_index_of_key(i: int)
    requires
        0 <= i < 140,
    ensures
        feedback_index(feedback_key(i).0, feedback_key(i).1) == Some(i),
{
    let (c, n) = feedback_key(i);
    if c == 1 && 8 <= n < 88 {
        let j = (n - 8) % 16;
        let k = (n - 8) / 16;
        assert(n - 8 == 16 * k + j);
    }
}

/// The light feedback is one to one: the 140 keys that have a light (every note of
/// channel 1, and notes 61 to 68 and 1 to 4 of channel 2) light the places 0 to 139,
/// each its own.
pub proof fn law_feedback_places_are_one_to_one(c1: int, n1: int, c2: int, n2: int, i: int)
    ensures
        feedback_index(c1, n1) is Some && feedback_index(c1, n1) == feedback_index(c2, n2) ==> c1 == c2 && n1 == n2,
        feedback_index(c1, n1) is Some <==> ((c1 == 1 && 0 <= n1 <= 127) || (c1 == 2 && (61 <= n1 <= 68 || 1 <= n1 <= 4))),
        feedback_index(c1, n1) matches Some(p) ==> 0 <= p < 140,
        0 <= i < 140 ==> exists|c: int, n: int| #[trigger] feedback_index(c, n) == Some(i),
{
    if feedback_index(c1, n1) is Some {
        lemma_feedback_key_undoes_index(c1, n1);
        if feedback_index(c1, n1) == feedback_index(c2, n2) {
            lemma_feedback_key_undoes_index(c2, n2);
        }
    }
    if 0 <= i < 140 {
        lemma_feedback_index_of_key(i);
        let (c, n) = feedback_key(i);
        assert(feedback_index(c, n) == Some(i));
    }
}

/// The index of the controller's light feedback for a key.
#[verifier::rlimit(100)]
pub fn digital_index_for_note(channel: u8, note: u8) -> (r: Option<u16>)
    ensures
        r matches Some(i) ==> feedback_index(channel as int, note as int) == Some(i as int),
        r is None ==> feedback_index(channel as int, note as int) is None,
{
    match (channel, note) {
        (1, 8) => Some(0),
        (1, 9) => Some(1),
        (1, 10) => Some(2),
        (1, 11) => Some(3),
        (1, 16) => Some(4),
        (1, 17) => Some(5),
        (1, 18) => Some(6),
        (1, 19) => Some(7),
        (1, 12) => Some(8),
        (1, 13) => Some(9),
        (1, 14) => Some(10),
        (1, 15) => Some(11),
        (1, 20) => Some(12),
        (1, 21) => Some(13),
        (1, 22) => Some(14),
        (1, 23) => Some(15),
        (2, 61) => Some(16),
        (2, 62) => Some(17),
        (2, 63) => Some(18),
        (2, 64) => Some(19),
        (2, 65) => Some(20),
        (2, 66) => Some(21),
        (2, 67) => Some(22),
        (2, 68) => Some(23),
        (1, 88) => Some(24),
        (1, 89) => Some(25),
        (1, 90) => Some(26),
        (1, 91) => Some(27),
        (1, 92) => Some(28),
        (1, 93) => Some(29),
        (1, 94) => Some(30),
        (1, 95) => Some(31),
        (1, 24) => Some(32),
        (1, 25) => Some(33),
        (1, 26) => Some(34),
        (1, 27) => Some(35),
        (1, 32) => Some(36),
        (1, 33) => Some(37),
        (1, 34) => Some(38),
        (1, 35) => Some(39),
        (1, 28) => Some(40),
        (1, 29) => Some(41),
        (1, 30) => Some(42),
        (1, 31) => Some(43),
        (1, 36) => Some(44),
        (1, 37) => Some(45),
        (1, 38) => Some(46),
        (1, 39) => Some(47),
        (1, 96) => Some(48),
        (1, 97) => Some(49),
        (1, 98) => Some(50),
        (1, 99) => Some(51),
        (1, 100) => Some(52),
        (1, 101) => Some(53),
        (1, 102) => Some(54),
        (1, 103) => Some(55),
        (1, 104) => Some(56),
        (1, 105) => Some(57),
        (1, 106) => Some(58),
        (1, 107) => Some(59),
        (1, 108) => Some(60),
        (1, 109) => Some(61),
        (1, 110) => Some(62),
        (1, 111) => Some(63),
        (1, 40) => Some(64),
        (1, 41) => Some(65),
        (1, 42) => Some(66),
        (1, 43) => Some(67),
        (1, 48) => Some(68),
        (1, 49) => Some(69),
        (1, 50) => Some(70),
        (1, 51) => Some(71),
        (1, 44) => Some(72),
        (1, 45) => Some(73),
        (1, 46) => Some(74),
        (1, 47) => Some(75),
        (1, 52) => Some(76),
        (1, 53) => Some(77),
        (1, 54) => Some(78),
        (1, 55) => Some(79),
        (1, 112) => Some(80),
        (1, 113) => Some(81),
        (1, 114) => Some(82),
        (1, 115) => Some(83),
        (1, 116) => Some(84),
        (1, 117) => Some(85),
        (1, 118) => Some(86),
        (1, 119) => Some(87),
        (1, 120) => Some(88),
        (1, 121) => Some(89),
        (1, 122) => Some(90),
        (1, 123) => Some(91),
        (1, 124) => Some(92),
        (1, 125) => Some(93),
        (1, 126) => Some(94),
        (1, 127) => Some(95),
        (1, 56) => Some(96),
        (1, 57) => Some(97),
        (1, 58) => Some(98),
        (1, 59) => Some(99),
        (1, 64) => Some(100),
        (1, 65) => Some(101),
        (1, 66) => Some(102),
        (1, 67) => Some(103),
        (1, 60) => Some(104),
        (1, 61) => Some(105),
        (1, 62) => Some(106),
        (1, 63) => Some(107),
        (1, 68) => Some(108),
        (1, 69) => Some(109),
        (1, 70) => Some(110),
        (1, 71) => Some(111),
        (1, 72) => Some(112),
        (1, 73) => Some(113),
        (1, 74) => Some(114),
        (1, 75) => Some(115),
        (1, 80) => Some(116),
        (1, 81) => Some(117),
        (1, 82) => Some(118),
        (1, 83) => Some(119),
        (1, 76) => Some(120),
        (1, 77) => Some(121),
        (1, 78) => Some(122),
        (1, 79) => Some(123),
        (1, 84) => Some(124),
        (1, 85) => Some(125),
        (1, 86) => Some(126),
        (1, 87) => Some(127),
        (1, 0) => Some(128),
        (1, 1) => Some(129),
        (1, 2) => Some(130),
        (1, 3) => Some(131),
        (1, 4) => Some(132),
        (1, 5) => Some(133),
        (1, 6) => Some(134),
        (1, 7) => Some(135),
        (2, 1) => Some(136),
        (2, 2) => Some(137),
        (2, 3) => Some(138),
        (2, 4) => Some(139),
        _ => None,
    }
}

/// Whether column `col` (0 = left) of a glyph row of three, written as three bits
/// with the left column highest, is lit.
pub open spec fn row_lit(bits: u8, col: int) -> bool {
    if col == 0 {
        bits / 4 % 2 == 1
    } else if col == 1 {
        bits / 2 % 2 == 1
    } else if col == 2 {
        bits % 2 == 1
    } else {
        false
    }
}

/// The five rows of the letter glyph drawn for a character, top first; digits without a
/// glyph of their own borrow the letter they resemble.
pub open spec fn letter_glyph(letter: char) -> Option<Seq<u8>> {
    if letter == 'C' {
        Some(seq![0b111u8, 0b100u8, 0b100u8, 0b100u8, 0b111u8])
    } else if letter == 'D' {
        Some(seq![0b110u8, 0b101u8, 0b101u8, 0b101u8, 0b110u8])
    } else if letter == 'E' {
        Some(seq![0b111u8, 0b100u8, 0b110u8, 0b100u8, 0b111u8])
    } else if letter == 'F' {
        Some(seq![0b111u8, 0b100u8, 0b110u8, 0b100u8, 0b100u8])
    } else if letter == 'G' {
        Some(seq![0b111u8, 0b100u8, 0b101u8, 0b101u8, 0b111u8])
    } else if letter == 'I' {
        Some(seq![0b111u8, 0b010u8, 0b010u8, 0b010u8, 0b111u8])
    } else if letter == 'L' {
        Some(seq![0b100u8, 0b100u8, 0b100u8, 0b100u8, 0b111u8])
    } else if letter == 'N' {
        Some(seq![0b101u8, 0b111u8, 0b111u8, 0b101u8, 0b101u8])
    } else if letter == 'P' {
        Some(seq![0b110u8, 0b101u8, 0b110u8, 0b100u8, 0b100u8])
    } else if letter == 'Q' {
        Some(seq![0b111u8, 0b101u8, 0b101u8, 0b111u8, 0b001u8])
    } else if letter == 'R' {
        Some(seq![0b110u8, 0b101u8, 0b110u8, 0b101u8, 0b101u8])
    } else if letter == 'S' {
        Some(seq![0b111u8, 0b100u8, 0b111u8, 0b001u8, 0b111u8])
    } else if letter == 'T' {
        Some(seq![0b111u8, 0b010u8, 0b010u8, 0b010u8, 0b010u8])
    } else if letter == 'U' {
        Some(seq![0b101u8, 0b101u8, 0b101u8, 0b101u8, 0b111u8])
    } else if letter == 'W' {
        Some(seq![0b101u8, 0b101u8, 0b111u8, 0b111u8, 0b101u8])
    } else if letter == 'A' {
        Some(seq![0b111u8, 0b101u8, 0b111u8, 0b101u8, 0b101u8])
    } else if letter == 'B' {
        Some(seq![0b110u8, 0b101u8, 0b110u8, 0b101u8, 0b110u8])
    } else if letter == '1' {
        Some(seq![0b111u8, 0b010u8, 0b010u8, 0b010u8, 0b111u8])
    } else if letter == '2' {
        Some(seq![0b111u8, 0b001u8, 0b010u8, 0b100u8, 0b111u8])
    } else if letter == '3' {
        Some(seq![0b111u8, 0b100u8, 0b110u8, 0b100u8, 0b111u8])
    } else if letter == '4' {
        Some(seq![0b111u8, 0b101u8, 0b111u8, 0b101u8, 0b101u8])
    } else if letter == '5' {
        Some(seq![0b111u8, 0b100u8, 0b111u8, 0b001u8, 0b111u8])
    } else if letter == '6' {
        Some(seq![0b111u8, 0b100u8, 0b101u8, 0b101u8, 0b111u8])
    } else if letter == '8' {
        Some(seq![0b110u8, 0b101u8, 0b110u8, 0b101u8, 0b110u8])
    } else {
        None
    }
}

/// The five rows of the wide glyph of a decimal digit, top first.
pub open spec fn digit_glyph(digit: int) -> Option<Seq<u8>> {
    if digit == 0 {
        Some(seq![0b111u8, 0b101u8, 0b101u8, 0b101u8, 0b111u8])
    } else if digit == 1 {
        Some(seq![0b010u8, 0b110u8, 0b010u8, 0b010u8, 0b111u8])
    } else if digit == 2 {
        Some(seq![0b111u8, 0b001u8, 0b111u8, 0b100u8, 0b111u8])
    } else if digit == 3 {
        Some(seq![0b111u8, 0b001u8, 0b111u8, 0b001u8, 0b111u8])
    } else if digit == 4 {
        Some(seq![0b101u8, 0b101u8, 0b111u8, 0b001u8, 0b001u8])
    } else if digit == 5 {
        Some(seq![0b111u8, 0b100u8, 0b111u8, 0b001u8, 0b111u8])
    } else if digit == 6 {
        Some(seq![0b111u8, 0b100u8, 0b111u8, 0b101u8, 0b111u8])
    } else if digit == 7 {
        Some(seq![0b111u8, 0b001u8, 0b001u8, 0b001u8, 0b001u8])
    } else if digit == 8 {
        Some(seq![0b111u8, 0b101u8, 0b111u8, 0b101u8, 0b111u8])
    } else if digit == 9 {
        Some(seq![0b111u8, 0b101u8, 0b111u8, 0b001u8, 0b111u8])
    } else {
        None
    }
}

/// Whether a glyph lights the pixel at `row`, `col`.
pub open spec fn glyph_lit(glyph: Option<Seq<u8>>, row: int, col: int) -> bool {
    match glyph {
        Some(rows) => 0 <= row < 5 && rows.len() == 5 && row_lit(rows[row], col),
        None => false,
    }
}

fn glyph_row_lit(bits: u8, col: usize) -> (r: bool)
    ensures
        r == row_lit(bits, col as int),
{
    if col == 0 {
        bits / 4 % 2 == 1
    } else if col == 1 {
        bits / 2 % 2 == 1
    } else if col == 2 {
        bits % 2 == 1
    } else {
        false
    }
}

fn letter_rows(letter: char) -> (r: Option<[u8; 5]>)
    ensures
        match letter_glyph(letter) {
            Some(s) => (r matches Some(a) && a@ == s),
            None => r is None,
        },
{
    match letter {
        'C' => {
            let a: [u8; 5] = [0b111u8, 0b100u8, 0b100u8, 0b100u8, 0b111u8];
            assert(a@ =~= seq![0b111u8, 0b100u8, 0b100u8, 0b100u8, 0b111u8]);
            Some(a)
        }
        'D' => {
            let a: [u8; 5] = [0b110u8, 0b101u8, 0b101u8, 0b101u8, 0b110u8];
            assert(a@ =~= seq![0b110u8, 0b101u8, 0b101u8, 0b101u8, 0b110u8]);
            Some(a)
        }
        'E' => {
            let a: [u8; 5] = [0b111u8, 0b100u8, 0b110u8, 0b100u8, 0b111u8];
            assert(a@ =~= seq![0b111u8, 0b100u8, 0b110u8, 0b100u8, 0b111u8]);
            Some(a)
        }
        'F' => {
            let a: [u8; 5] = [0b111u8, 0b100u8, 0b110u8, 0b100u8, 0b100u8];
            assert(a@ =~= seq![0b111u8, 0b100u8, 0b110u8, 0b100u8, 0b100u8]);
            Some(a)
        }
        'G' => {
            let a: [u8; 5] = [0b111u8, 0b100u8, 0b101u8, 0b101u8, 0b111u8];
            assert(a@ =~= seq![0b111u8, 0b100u8, 0b101u8, 0b101u8, 0b111u8]);
            Some(a)
        }
        'I' => {
            let a: [u8; 5] = [0b111u8, 0b010u8, 0b010u8, 0b010u8, 0b111u8];
            assert(a@ =~= seq![0b111u8, 0b010u8, 0b010u8, 0b010u8, 0b111u8]);
            Some(a)
        }
        'L' => {
            let a: [u8; 5] = [0b100u8, 0b100u8, 0b100u8, 0b100u8, 0b111u8];
            assert(a@ =~= seq![0b100u8, 0b100u8, 0b100u8, 0b100u8, 0b111u8]);
            Some(a)
        }
        'N' => {
            let a: [u8; 5] = [0b101u8, 0b111u8, 0b111u8, 0b101u8, 0b101u8];
            assert(a@ =~= seq![0b101u8, 0b111u8, 0b111u8, 0b101u8, 0b101u8]);
            Some(a)
        }
        'P' => {
            let a: [u8; 5] = [0b110u8, 0b101u8, 0b110u8, 0b100u8, 0b100u8];
            assert(a@ =~= seq![0b110u8, 0b101u8, 0b110u8, 0b100u8, 0b100u8]);
            Some(a)
        }
        'Q' => {
            let a: [u8; 5] = [0b111u8, 0b101u8, 0b101u8, 0b111u8, 0b001u8];
            assert(a@ =~= seq![0b111u8, 0b101u8, 0b101u8, 0b111u8, 0b001u8]);
            Some(a)
        }
        'R' => {
            let a: [u8; 5] = [0b110u8, 0b101u8, 0b110u8, 0b101u8, 0b101u8];
            assert(a@ =~= seq![0b110u8, 0b101u8, 0b110u8, 0b101u8, 0b101u8]);
            Some(a)
        }
        'S' => {
            let a: [u8; 5] = [0b111u8, 0b100u8, 0b111u8, 0b001u8, 0b111u8];
            assert(a@ =~= seq![0b111u8, 0b100u8, 0b111u8, 0b001u8, 0b111u8]);
            Some(a)
        }
        'T' => {
            let a: [u8; 5] = [0b111u8, 0b010u8, 0b010u8, 0b010u8, 0b010u8];
            assert(a@ =~= seq![0b111u8, 0b010u8, 0b010u8, 0b010u8, 0b010u8]);
            Some(a)
        }
        'U' => {
            let a: [u8; 5] = [0b101u8, 0b101u8, 0b101u8, 0b101u8, 0b111u8];
            assert(a@ =~= seq![0b101u8, 0b101u8, 0b101u8, 0b101u8, 0b111u8]);
            Some(a)
        }
        'W' => {
            let a: [u8; 5] = [0b101u8, 0b101u8, 0b111u8, 0b111u8, 0b101u8];
            assert(a@ =~= seq![0b101u8, 0b101u8, 0b111u8, 0b111u8, 0b101u8]);
            Some(a)
        }
        'A' => {
            let a: [u8; 5] = [0b111u8, 0b101u8, 0b111u8, 0b101u8, 0b101u8];
            assert(a@ =~= seq![0b111u8, 0b101u8, 0b111u8, 0b101u8, 0b101u8]);
            Some(a)
        }
        'B' => {
            let a: [u8; 5] = [0b110u8, 0b101u8, 0b110u8, 0b101u8, 0b110u8];
            assert(a@ =~= seq![0b110u8, 0b101u8, 0b110u8, 0b101u8, 0b110u8]);
            Some(a)
        }
        '1' => {
            let a: [u8; 5] = [0b111u8, 0b010u8, 0b010u8, 0b010u8, 0b111u8];
            assert(a@ =~= seq![0b111u8, 0b010u8, 0b010u8, 0b010u8, 0b111u8]);
            Some(a)
        }
        '2' => {
            let a: [u8; 5] = [0b111u8, 0b001u8, 0b010u8, 0b100u8, 0b111u8];
            assert(a@ =~= seq![0b111u8, 0b001u8, 0b010u8, 0b100u8, 0b111u8]);
            Some(a)
        }
        '3' => {
            let a: [u8; 5] = [0b111u8, 0b100u8, 0b110u8, 0b100u8, 0b111u8];
            assert(a@ =~= seq![0b111u8, 0b100u8, 0b110u8, 0b100u8, 0b111u8]);
            Some(a)
        }
        '4' => {
            let a: [u8; 5] = [0b111u8, 0b101u8, 0b111u8, 0b101u8, 0b101u8];
            assert(a@ =~= seq![0b111u8, 0b101u8, 0b111u8, 0b101u8, 0b101u8]);
            Some(a)
        }
        '5' => {
            let a: [u8; 5] = [0b111u8, 0b100u8, 0b111u8, 0b001u8, 0b111u8];
            assert(a@ =~= seq![0b111u8, 0b100u8, 0b111u8, 0b001u8, 0b111u8]);
            Some(a)
        }
        '6' => {
            let a: [u8; 5] = [0b111u8, 0b100u8, 0b101u8, 0b101u8, 0b111u8];
            assert(a@ =~= seq![0b111u8, 0b100u8, 0b101u8, 0b101u8, 0b111u8]);
            Some(a)
        }
        '8' => {
            let a: [u8; 5] = [0b110u8, 0b101u8, 0b110u8, 0b101u8, 0b110u8];
            assert(a@ =~= seq![0b110u8, 0b101u8, 0b110u8, 0b101u8, 0b110u8]);
            Some(a)
        }
        _ => None,
    }
}

fn digit_rows(digit: u8) -> (r: Option<[u8; 5]>)
    ensures
        match digit_glyph(digit as int) {
            Some(s) => (r matches Some(a) && a@ == s),
            None => r is None,
        },
{
    match digit {
        0 => {
            let a: [u8; 5] = [0b111u8, 0b101u8, 0b101u8, 0b101u8, 0b111u8];
            assert(a@ =~= seq![0b111u8, 0b101u8, 0b101u8, 0b101u8, 0b111u8]);
            Some(a)
        }
        1 => {
            let a: [u8; 5] = [0b010u8, 0b110u8, 0b010u8, 0b010u8, 0b111u8];
            assert(a@ =~= seq![0b010u8, 0b110u8, 0b010u8, 0b010u8, 0b111u8]);
            Some(a)
        }
        2 => {
            let a: [u8; 5] = [0b111u8, 0b001u8, 0b111u8, 0b100u8, 0b111u8];
            assert(a@ =~= seq![0b111u8, 0b001u8, 0b111u8, 0b100u8, 0b111u8]);
            Some(a)
        }
        3 => {
            let a: [u8; 5] = [0b111u8, 0b001u8, 0b111u8, 0b001u8, 0b111u8];
            assert(a@ =~= seq![0b111u8, 0b001u8, 0b111u8, 0b001u8, 0b111u8]);
            Some(a)
        }
        4 => {
            let a: [u8; 5] = [0b101u8, 0b101u8, 0b111u8, 0b001u8, 0b001u8];
            assert(a@ =~= seq![0b101u8, 0b101u8, 0b111u8, 0b001u8, 0b001u8]);
            Some(a)
        }
        5 => {
            let a: [u8; 5] = [0b111u8, 0b100u8, 0b111u8, 0b001u8, 0b111u8];
            assert(a@ =~= seq![0b111u8, 0b100u8, 0b111u8, 0b001u8, 0b111u8]);
            Some(a)
        }
        6 => {
            let a: [u8; 5] = [0b111u8, 0b100u8, 0b111u8, 0b101u8, 0b111u8];
            assert(a@ =~= seq![0b111u8, 0b100u8, 0b111u8, 0b101u8, 0b111u8]);
            Some(a)
        }
        7 => {
            let a: [u8; 5] = [0b111u8, 0b001u8, 0b001u8, 0b001u8, 0b001u8];
            assert(a@ =~= seq![0b111u8, 0b001u8, 0b001u8, 0b001u8, 0b001u8]);
            Some(a)
        }
        8 => {
            let a: [u8; 5] = [0b111u8, 0b101u8, 0b111u8, 0b101u8, 0b111u8];
            assert(a@ =~= seq![0b111u8, 0b101u8, 0b111u8, 0b101u8, 0b111u8]);
            Some(a)
        }
        9 => {
            let a: [u8; 5] = [0b111u8, 0b101u8, 0b111u8, 0b001u8, 0b111u8];
            assert(a@ =~= seq![0b111u8, 0b101u8, 0b111u8, 0b001u8, 0b111u8]);
            Some(a)
        }
        _ => None,
    }
}

/// Whether the letter glyph of `letter` lights the pixel at `row`, `col`.
pub fn note_letter_pixel(letter: char, row: usize, col: usize) -> (r: bool)
    ensures
        r == glyph_lit(letter_glyph(letter), row as int, col as int),
{
    match letter_rows(letter) {
        Some(rows) => {
            if row < 5 {
                glyph_row_lit(rows[row], col)
            } else {
                false
            }
        }
        None => false,
    }
}

/// Whether the wide glyph of a digit lights the pixel at `row`, `col`.
pub fn wide_digit_pixel(digit: u8, row: usize, col: usize) -> (r: bool)
    ensures
        r == glyph_lit(digit_glyph(digit as int), row as int, col as int),
{
    match digit_rows(digit) {
        Some(rows) => {
            if row < 5 {
                glyph_row_lit(rows[row], col)
            } else {
                false
            }
        }
        None => false,
    }
}

/// Whether the two-column sharp sign lights the pixel at `row`, `col`: its left column
/// is solid and its right column lights the second and fourth rows.
pub open spec fn sharp_lit(row: int, col: int) -> bool {
    0 <= row < 5 && (col == 0 || (col == 1 && (row == 1 || row == 3)))
}

/// Whether the sharp sign lights the pixel at `row`, `col`.
pub fn sharp_pixel(row: usize, col: usize) -> (r: bool)
    ensures
        r == sharp_lit(row as int, col as int),
{
    let rows: [u8; 5] = [0b10u8, 0b11u8, 0b10u8, 0b11u8, 0b10u8];
    if row < 5 && col < 2 {
        let bits = rows[row];
        if col == 0 {
            bits / 2 % 2 == 1
        } else {
            bits % 2 == 1
        }
    } else {
        false
    }
}

/// Whether the narrow glyph of a digit lights a pixel of row `row`: only the one has a
/// narrow glyph, a single column five rows high.
pub fn narrow_digit_pixel(digit: u8, row: usize) -> (r: bool)
    ensures
        r == (digit == 1 && row < 5),
{
    match digit {
        1 => row < 5,
        _ => false,
    }
}

/// The glyph drawn for a character of compact text: digits use their wide glyphs, a few
/// letters their letter glyphs, anything else is blank.
pub open spec fn compact_glyph(glyph: char) -> Option<Seq<u8>> {
    if '0' <= glyph <= '9' {
        digit_glyph(glyph as int - '0' as int)
    } else if glyph == 'A' || glyph == 'B' || glyph == 'Q' || glyph == 'R' || glyph == 'T' {
        letter_glyph(glyph)
    } else {
        None
    }
}

/// Whether a character of compact text lights the pixel at `row`, `col` of its cell.
pub fn compact_glyph_pixel(glyph: char, row: usize, col: usize) -> (r: bool)
    ensures
        r == glyph_lit(compact_glyph(glyph), row as int, col as int),
{
    if '0' <= glyph && glyph <= '9' {
        let d = (glyph as u32 - '0' as u32) as u8;
        wide_digit_pixel(d, row, col)
    } else if glyph == 'A' || glyph == 'B' || glyph == 'Q' || glyph == 'R' || glyph == 'T' {
        note_letter_pixel(glyph, row, col)
    } else {
        false
    }
}

/// Width of `len` compact glyphs: three columns each and one between neighbours.
pub open spec fn compact_text_width(len: int) -> int {
    if len == 0 { 0 } else { len * 3 + (len - 1) }
}

/// The first column of compact text centred on eight columns, or 0 when it does not fit.
pub open spec fn compact_start(len: int) -> int {
    if compact_text_width(len) >= 8 { 0 } else { (8 - compact_text_width(len)) / 2 }
}

/// The first column of `len` compact glyphs centred on eight columns.
pub fn compact_text_start(len: usize) -> (r: usize)
    requires
        len < 0x1000_0000,
    ensures
        r == compact_start(len as int),
{
    let width = if len == 0 { 0 } else { (len * 3) + (len - 1) };
    if width >= 8 {
        0
    } else {
        (8 - width) / 2
    }
}

/// The pixel of compact text at `row`, `col`: the cell that `col` falls in (each glyph
/// three columns wide, one column between) shows its glyph in `light`; columns between
/// or outside the glyphs are off.
pub open spec fn compact_text_light(text: Seq<char>, row: int, col: int, light: Light) -> Light {
    let start = compact_start(text.len() as int);
    let index = (col - start) / 4;
    if col >= start && 0 <= index < text.len() && (col - start) % 4 < 3 {
        if glyph_lit(compact_glyph(text[index]), row, (col - start) % 4) { light } else { Light::Off }
    } else {
        Light::Off
    }
}

/// The pixel of centred compact text at `row`, `col`.
pub fn compact_text_pixel(text: &str, row: usize, col: usize, light: Light) -> (r: Light)
    requires
        text@.len() < 0x1000_0000,
    ensures
        r == compact_text_light(text@, row as int, col as int, light),
{
    let len = text.unicode_len();
    let start_col = compact_text_start(len);
    let mut index: usize = 0;
    while index < len
        invariant
            len == text@.len(),
            len < 0x1000_0000,
            start_col <= 4,
            start_col == compact_start(len as int),
            index <= len,
            col < start_col || (col - start_col) / 4 >= index || (col - start_col) % 4 >= 3,
        decreases len - index,
    {
        let glyph_start = start_col + index * 4;
        if col >= glyph_start && col < glyph_start + 3 {
            let ch = text.get_char(index);
            proof {
                assert((col - start_col) / 4 == index as int);
                assert((col - start_col) % 4 == col - glyph_start);
            }
            if compact_glyph_pixel(ch, row, col - glyph_start) {
                return light;
            } else {
                return Light::Off;
            }
        }
        index += 1;
    }
    Light::Off
}

/// The one-letter name shown for a trigger mode.
pub open spec fn trigger_mode_letter(mode: TriggerMode) -> Seq<char> {
    match mode {
        TriggerMode::Immediate => "T"@,
        TriggerMode::Quantized => "Q"@,
        TriggerMode::Repeat => "R"@,
        TriggerMode::Cycle => "A"@,
    }
}

/// The one-letter name shown for a trigger mode.
pub fn trigger_mode_overlay_value(mode: TriggerMode) -> (r: &'static str)
    ensures
        r@ == trigger_mode_letter(mode),
{
    match mode {
        TriggerMode::Immediate => "T",
        TriggerMode::Quantized => "Q",
        TriggerMode::Repeat => "R",
        TriggerMode::Cycle => "A",
    }
}

/// The colour of a trigger mode.
pub open spec fn mode_light(mode: TriggerMode) -> Light {
    match mode {
        TriggerMode::Immediate => Light::Green,
        TriggerMode::Quantized => Light::Yellow,
        TriggerMode::Repeat => Light::Purple,
        TriggerMode::Cycle => Light::BlueDark,
    }
}

/// The colour of a trigger mode.
pub fn trigger_mode_light(mode: TriggerMode) -> (r: Light)
    ensures
        r == mode_light(mode),
{
    match mode {
        TriggerMode::Immediate => Light::Green,
        TriggerMode::Quantized => Light::Yellow,
        TriggerMode::Repeat => Light::Purple,
        TriggerMode::Cycle => Light::BlueDark,
    }
}

/// The trigger mode button: the mode's colour while the override is held, its dimmed hue
/// otherwise.
pub fn trigger_mode_button_light(mode: TriggerMode, override_active: bool) -> (r: Light)
    ensures
        r == (if override_active { mode_light(mode) } else { Light::ValueLow(light_hue(mode_light(mode))) }),
{
    let light = trigger_mode_light(mode);
    if override_active {
        light
    } else {
        Light::ValueLow(light_to_hue(light))
    }
}

/// Weight of column `col` in a row of `width` bits written with the left column highest.
pub open spec fn column_weight(width: int, col: int) -> int
    decreases width - col,
{
    if col < 0 || col >= width {
        0
    } else if col == width - 1 {
        1
    } else {
        2 * column_weight(width, col + 1)
    }
}

/// Whether column `col` of a row of `width` bits is lit.
pub open spec fn bit_lit(bits: u8, width: int, col: int) -> bool {
    0 <= col < width && (bits as int / column_weight(width, col)) % 2 == 1
}

fn weight(width: usize, col: usize) -> (r: u8)
    requires
        1 <= width <= 8,
        col < width,
    ensures
        r == column_weight(width as int, col as int),
        r >= 1,
    decreases width - col,
{
    if col == width - 1 {
        1
    } else {
        let w = weight(width, col + 1);
        proof {
            lemma_weight_bound(width as int, col as int + 1);
        }
        2 * w
    }
}

proof fn lemma_weight_bound(width: int, col: int)
    requires
        1 <= width <= 8,
        0 <= col < width,
    ensures
        1 <= column_weight(width, col) <= column_weight(width, 0),
        column_weight(width, 0) * 2 <= 256,
        column_weight(width, col) * 2 <= column_weight(width, 0) || col == 0,
    decreases width - col,
{
    reveal_with_fuel(column_weight, 9);
    if col < width - 1 {
        lemma_weight_bound(width, col + 1);
    }
}

fn bit_at(bits: u8, width: usize, col: usize) -> (r: bool)
    requires
        1 <= width <= 8,
    ensures
        r == bit_lit(bits, width as int, col as int),
{
    if col < width {
        let w = weight(width, col);
        bits / w % 2 == 1
    } else {
        false
    }
}

/// The rows (eight columns each) and colour of the picture shown for an LFO wave shape.
pub open spec fn wave_picture(mode: Seq<char>) -> Option<(Seq<u8>, Light)> {
    if mode == "TRI"@ {
        Some((seq![0b00100000u8, 0b01010000u8, 0b10001000u8, 0b00000101u8, 0b00000010u8], Light::White))
    } else if mode == "UP"@ {
        Some((seq![0b00001000u8, 0b00011001u8, 0b00101010u8, 0b01001100u8, 0b10001000u8], Light::Yellow))
    } else if mode == "HUP"@ {
        Some((seq![0b00001111u8, 0b00010001u8, 0b00100001u8, 0b01000001u8, 0b10000001u8], Light::Purple))
    } else if mode == "HDN"@ {
        Some((seq![0b11110000u8, 0b10001000u8, 0b10000100u8, 0b10000010u8, 0b10000001u8], Light::Purple))
    } else if mode == "DWN"@ {
        Some((seq![0b10001000u8, 0b01001100u8, 0b00101010u8, 0b00011001u8, 0b00001000u8], Light::BlueDark))
    } else {
        None
    }
}

fn wave_rows(mode: &str) -> (r: Option<([u8; 5], Light)>)
    ensures
        match wave_picture(mode@) {
            Some(p) => (r matches Some(q) && q.0@ == p.0 && q.1 == p.1),
            None => r is None,
        },
{
    if text_eq(mode, "TRI") {
        let a: [u8; 5] = [0b00100000u8, 0b01010000u8, 0b10001000u8, 0b00000101u8, 0b00000010u8];
        assert(a@ =~= seq![0b00100000u8, 0b01010000u8, 0b10001000u8, 0b00000101u8, 0b00000010u8]);
        return Some((a, Light::White));
    }
    if text_eq(mode, "UP") {
        let a: [u8; 5] = [0b00001000u8, 0b00011001u8, 0b00101010u8, 0b01001100u8, 0b10001000u8];
        assert(a@ =~= seq![0b00001000u8, 0b00011001u8, 0b00101010u8, 0b01001100u8, 0b10001000u8]);
        return Some((a, Light::Yellow));
    }
    if text_eq(mode, "HUP") {
        let a: [u8; 5] = [0b00001111u8, 0b00010001u8, 0b00100001u8, 0b01000001u8, 0b10000001u8];
        assert(a@ =~= seq![0b00001111u8, 0b00010001u8, 0b00100001u8, 0b01000001u8, 0b10000001u8]);
        return Some((a, Light::Purple));
    }
    if text_eq(mode, "HDN") {
        let a: [u8; 5] = [0b11110000u8, 0b10001000u8, 0b10000100u8, 0b10000010u8, 0b10000001u8];
        assert(a@ =~= seq![0b11110000u8, 0b10001000u8, 0b10000100u8, 0b10000010u8, 0b10000001u8]);
        return Some((a, Light::Purple));
    }
    if text_eq(mode, "DWN") {
        let a: [u8; 5] = [0b10001000u8, 0b01001100u8, 0b00101010u8, 0b00011001u8, 0b00001000u8];
        assert(a@ =~= seq![0b10001000u8, 0b01001100u8, 0b00101010u8, 0b00011001u8, 0b00001000u8]);
        return Some((a, Light::BlueDark));
    }
    None
}

/// The pixel at `row`, `col` of the picture of an LFO wave shape.
pub open spec fn wave_light(mode: Option<Seq<char>>, row: int, col: int) -> Light {
    match mode {
        Some(m) => match wave_picture(m) {
            Some(p) => if 0 <= row < 5 && bit_lit(p.0[row], 8, col) { p.1 } else { Light::Off },
            None => Light::Off,
        },
        None => Light::Off,
    }
}

/// The pixel at `row`, `col` of the picture of an LFO wave shape.
pub fn lfo_wave_overlay_pixel(mode: Option<&str>, row: usize, col: usize) -> (r: Light)
    ensures
        r == wave_light(
            match mode {
                Some(m) => Some(m@),
                None => None,
            },
            row as int,
            col as int,
        ),
{
    match mode {
        Some(m) => match wave_rows(m) {
            Some((pixels, light)) => {
                if row >= 5 || col >= 8 {
                    return Light::Off;
                }
                if bit_at(pixels[row], 8, col) {
                    light
                } else {
                    Light::Off
                }
            }
            None => Light::Off,
        },
        None => Light::Off,
    }
}

/// The rows (five columns each) and trigger mode of the picture shown for a mode letter.
pub open spec fn mode_picture(value: Seq<char>) -> Option<(Seq<u8>, TriggerMode)> {
    if value == "T"@ {
        Some((seq![0b00100u8, 0b00110u8, 0b11111u8, 0b00110u8, 0b00100u8], TriggerMode::Immediate))
    } else if value == "Q"@ {
        Some((seq![0b01110u8, 0b10001u8, 0b10101u8, 0b10001u8, 0b01110u8], TriggerMode::Quantized))
    } else if value == "R"@ {
        Some((seq![0b10101u8, 0b10101u8, 0b10101u8, 0b10101u8, 0b10101u8], TriggerMode::Repeat))
    } else if value == "A"@ {
        Some((seq![0b10000u8, 0b11000u8, 0b01100u8, 0b00110u8, 0b00011u8], TriggerMode::Cycle))
    } else {
        None
    }
}

fn mode_rows(value: &str) -> (r: Option<([u8; 5], TriggerMode)>)
    ensures
        match mode_picture(value@) {
            Some(p) => (r matches Some(q) && q.0@ == p.0 && q.1 == p.1),
            None => r is None,
        },
{
    if text_eq(value, "T") {
        let a: [u8; 5] = [0b00100u8, 0b00110u8, 0b11111u8, 0b00110u8, 0b00100u8];
        assert(a@ =~= seq![0b00100u8, 0b00110u8, 0b11111u8, 0b00110u8, 0b00100u8]);
        return Some((a, TriggerMode::Immediate));
    }
    if text_eq(value, "Q") {
        let a: [u8; 5] = [0b01110u8, 0b10001u8, 0b10101u8, 0b10001u8, 0b01110u8];
        assert(a@ =~= seq![0b01110u8, 0b10001u8, 0b10101u8, 0b10001u8, 0b01110u8]);
        return Some((a, TriggerMode::Quantized));
    }
    if text_eq(value, "R") {
        let a: [u8; 5] = [0b10101u8, 0b10101u8, 0b10101u8, 0b10101u8, 0b10101u8];
        assert(a@ =~= seq![0b10101u8, 0b10101u8, 0b10101u8, 0b10101u8, 0b10101u8]);
        return Some((a, TriggerMode::Repeat));
    }
    if text_eq(value, "A") {
        let a: [u8; 5] = [0b10000u8, 0b11000u8, 0b01100u8, 0b00110u8, 0b00011u8];
        assert(a@ =~= seq![0b10000u8, 0b11000u8, 0b01100u8, 0b00110u8, 0b00011u8]);
        return Some((a, TriggerMode::Cycle));
    }
    None
}

/// The pixel at `row`, `col` of the picture of a trigger mode letter, drawn five columns
/// wide from the second column in the mode's colour.
pub open spec fn mode_overlay_light(value: Option<Seq<char>>, row: int, col: int) -> Light {
    match value {
        Some(v) => match mode_picture(v) {
            Some(p) => if 1 <= col < 6 && 0 <= row < 5 && bit_lit(p.0[row], 5, col - 1) {
                mode_light(p.1)
            } else {
                Light::Off
            },
            None => Light::Off,
        },
        None => Light::Off,
    }
}

/// The pixel at `row`, `col` of the picture of a trigger mode letter.
pub fn trigger_mode_overlay_pixel(value: Option<&str>, row: usize, col: usize) -> (r: Light)
    ensures
        r == mode_overlay_light(
            match value {
                Some(v) => Some(v@),
                None => None,
            },
            row as int,
            col as int,
        ),
{
    match value {
        Some(v) => match mode_rows(v) {
            Some((pixels, mode)) => {
                let start_col = 1usize;
                if col < start_col || col >= start_col + 5 {
                    return Light::Off;
                }
                if row >= 5 {
                    return Light::Off;
                }
                if bit_at(pixels[row], 5, col - start_col) {
                    trigger_mode_light(mode)
                } else {
                    Light::Off
                }
            }
            None => Light::Off,
        },
        None => Light::Off,
    }
}

/// Whether a text ends with the given character.
fn ends_with_char(text: &str, c: char) -> (r: bool)
    ensures
        r == (text@.len() > 0 && text@[text@.len() - 1] == c),
{
    let n = text.unicode_len();
    n > 0 && text.get_char(n - 1) == c
}

/// The pixel at `row`, `col` of the overlay that shows a control's value: trigger modes
/// and LFO wave shapes as pictures, rates in compact text (purple for triplets, yellow
/// otherwise), anything else in white compact text.
pub open spec fn control_overlay_light(
    label: Seq<char>,
    value: Option<Seq<char>>,
    mode: Option<Seq<char>>,
    row: int,
    col: int,
) -> Light {
    if label == "TRG"@ {
        mode_overlay_light(value, row, col)
    } else if label == "RATE"@ {
        match value {
            Some(v) => compact_text_light(
                v,
                row,
                col,
                if v.len() > 0 && v[v.len() - 1] == 'T' { Light::Purple } else { Light::Yellow },
            ),
            None => Light::Off,
        }
    } else if label == "LFO_WAVE"@ {
        wave_light(mode, row, col)
    } else {
        match value {
            Some(v) => compact_text_light(v, row, col, Light::White),
            None => Light::Off,
        }
    }
}

/// The pixel at `row`, `col` of the overlay that shows a control's value.
pub fn control_overlay_pixel(label: &str, value: Option<&str>, mode: Option<&str>, row: usize, col: usize) -> (r: Light)
    requires
        value matches Some(v) ==> v@.len() < 0x1000_0000,
    ensures
        r == control_overlay_light(
            label@,
            match value {
                Some(v) => Some(v@),
                None => None,
            },
            match mode {
                Some(m) => Some(m@),
                None => None,
            },
            row as int,
            col as int,
        ),
{
    if text_eq(label, "TRG") {
        trigger_mode_overlay_pixel(value, row, col)
    } else if text_eq(label, "RATE") {
        match value {
            Some(v) => {
                let light = if ends_with_char(v, 'T') {
                    Light::Purple
                } else {
                    Light::Yellow
                };
                compact_text_pixel(v, row, col, light)
            }
            None => Light::Off,
        }
    } else if text_eq(label, "LFO_WAVE") {
        lfo_wave_overlay_pixel(mode, row, col)
    } else {
        match value {
            Some(v) => compact_text_pixel(v, row, col, Light::White),
            None => Light::Off,
        }
    }
}

/// The name shown for a repeat rate: the rates of the rate buttons by their note value
/// (`T` for triplets), anything else as `RATE`.
pub open spec fn rate_name(rate: int) -> Seq<char> {
    if rate == 12288 { "2B"@ }
    else if rate == 6144 { "1B"@ }
    else if rate == 3072 { "2"@ }
    else if rate == 1536 { "4"@ }
    else if rate == 768 { "8"@ }
    else if rate == 1024 { "4T"@ }
    else if rate == 2048 { "2T"@ }
    else if rate == 4096 { "1T"@ }
    else { "RATE"@ }
}

/// The name shown for a repeat rate.
pub fn rate_overlay_value(rate: MidiTime) -> (r: &'static str)
    ensures
        r@ == rate_name(rate@),
{
    let f = rate.fractions();
    if f == MidiTime::from_measure(2, 1).fractions() {
        "2B"
    } else if f == MidiTime::from_measure(1, 1).fractions() {
        "1B"
    } else if f == MidiTime::from_measure(1, 2).fractions() {
        "2"
    } else if f == MidiTime::from_measure(1, 4).fractions() {
        "4"
    } else if f == MidiTime::from_measure(1, 8).fractions() {
        "8"
    } else if f == MidiTime::from_measure(1, 6).fractions() {
        "4T"
    } else if f == MidiTime::from_measure(1, 3).fractions() {
        "2T"
    } else if f == MidiTime::from_measure(2, 3).fractions() {
        "1T"
    } else {
        "RATE"
    }
}

/// Whether a rate is one of the triplet rates: two thirds, a third or a sixth of a beat.
pub fn is_triplet_rate(rate: MidiTime) -> (r: bool)
    ensures
        r == (rate@ == 4096 || rate@ == 2048 || rate@ == 1024),
{
    let f = rate.fractions();
    f == MidiTime::from_measure(2, 3).fractions() || f == MidiTime::from_measure(1, 3).fractions()
        || f == MidiTime::from_measure(1, 6).fractions()
}

/// The first time at or after `pos` that lies on the grid of `rate` shifted by `offset`.
pub open spec fn next_repeat_time(pos: int, rate: int, offset: int) -> int {
    let root = pos - wrap(pos, rate) + wrap(offset, rate);
    if root < pos { root + rate } else { root }
}

/// The first time at or after `pos` on the grid of `rate` shifted by `offset`.
pub fn next_repeat(pos: MidiTime, rate: MidiTime, offset: MidiTime) -> (r: MidiTime)
    requires
        rate@ > 0,
        fits(pos@ + rate@),
        fits(pos@ - rate@),
    ensures
        r@ == next_repeat_time(pos@, rate@, offset@),
        pos@ <= r@ < pos@ + rate@,
        wrap(r@, rate@) == wrap(offset@, rate@),
{
    let q = pos.quantize(rate);
    let m = offset.modulo(rate);
    let root = q.plus(m);
    let result = if root.is_before(pos) {
        root.plus(rate)
    } else {
        root
    };
    proof {
        let p = pos@;
        let d = rate@;
        vstd::arithmetic::div_mod::lemma_fundamental_div_mod(p, d);
        let k = p / d;
        assert(p - wrap(p, d) == d * k);
        vstd::arithmetic::div_mod::lemma_mod_multiples_vanish(k, wrap(offset@, d), d);
        vstd::arithmetic::div_mod::lemma_mod_multiples_vanish(k + 1, wrap(offset@, d), d);
        assert(d * (k + 1) == d * k + d) by (nonlinear_arith);
        vstd::arithmetic::div_mod::lemma_small_mod(wrap(offset@, d) as nat, d as nat);
    }
    result
}

/// Whether `b` is a power of two.
pub open spec fn power_of_two(b: int) -> bool {
    exists|k: nat| pow2(k) == b
}

/// The smallest power of two above `a`.
pub fn next_power_of_two(a: u32) -> (r: u32)
    requires
        a < 0x8000_0000,
    ensures
        power_of_two(r as int),
        a < r,
        r == 1 || r / 2 <= a,
{
    let mut b: u32 = 1;
    let ghost mut k: nat = 0;
    proof {
        vstd::arithmetic::power2::lemma2_to64();
    }
    while b <= a
        invariant
            a < 0x8000_0000,
            b == pow2(k),
            b >= 1,
            b == 1 || b / 2 <= a,
        decreases 0x1_0000_0000 - b,
    {
        proof {
            vstd::arithmetic::power2::lemma_pow2_unfold(k + 1);
        }
        b = b * 2;
        proof {
            k = k + 1;
        }
    }
    assert(pow2(k) == b);
    b
}

/// Half the smallest power of two at or above `a` (0 for `a` up to 1).
pub fn prev_power_of_two(a: u32) -> (r: u32)
    requires
        a <= 0x8000_0000,
    ensures
        a <= 1 ==> r == 0,
        a > 1 ==> power_of_two(r as int) && r < a && a <= 2 * r,
{
    let mut b: u32 = 1;
    let ghost mut k: nat = 0;
    proof {
        vstd::arithmetic::power2::lemma2_to64();
    }
    while b < a
        invariant
            a <= 0x8000_0000,
            b == pow2(k),
            b >= 1,
            b == 1 || b / 2 < a,
            b <= 0x8000_0000,
        decreases 0x1_0000_0000 - b,
    {
        proof {
            vstd::arithmetic::power2::lemma2_to64();
            vstd::arithmetic::power2::lemma_pow2_unfold(k + 1);
            if k >= 31 {
                if k > 31 {
                    vstd::arithmetic::power2::lemma_pow2_strictly_increases(31, k);
                }
            } else if k < 30 {
                vstd::arithmetic::power2::lemma_pow2_strictly_increases(k, 30);
            }
        }
        b = b * 2;
        proof {
            k = k + 1;
        }
    }
    if b > 1 {
        proof {
            vstd::arithmetic::power2::lemma_pow2_unfold(k);
            assert(pow2((k - 1) as nat) == b / 2);
        }
    }
    b / 2
}

/// A loop length counted in quarter beats, rounded down; negative lengths count as none.
pub open spec fn quarter_beats(length: int) -> int {
    if length < 0 { 0 } else { length / 1536 }
}

fn quarter_beats_of(time: MidiTime) -> (r: u32)
    ensures
        r == quarter_beats(time@),
        r < 0x1600_0000,
{
    let f = time.fractions();
    if f < 0 {
        0
    } else {
        proof {
            crate::midi_time::lemma_view_fits(time);
        }
        (f / 1536) as u32
    }
}

/// The loop length that halving gives: the largest power of two of quarter beats below
/// the current length in quarter beats (none when under half a beat).
pub fn get_half_loop_length(time: MidiTime) -> (r: MidiTime)
    ensures
        quarter_beats(time@) <= 1 ==> r@ == 0,
        quarter_beats(time@) > 1 ==> exists|p: int| #![auto] power_of_two(p) && r@ == p * 1536
            && p < quarter_beats(time@) <= 2 * p,
{
    let n = quarter_beats_of(time);
    let p = prev_power_of_two(n);
    proof {
        crate::midi_time::lemma_view_fits(time);
        if n > 1 {
            assert(p * 1536 < n * 1536) by (nonlinear_arith)
                requires
                    p < n,
            ;
            assert(n * 1536 <= time@) by (nonlinear_arith)
                requires
                    n == time@ / 1536,
                    time@ >= 0,
            ;
        }
    }
    MidiTime::from_fractions(p as i64 * 1536)
}

/// The loop length that doubling gives: the smallest power of two of quarter beats above
/// the current length in quarter beats.
pub fn get_double_loop_length(time: MidiTime) -> (r: MidiTime)
    requires
        quarter_beats(time@) < 0x0800_0000,
    ensures
        exists|p: int| #![auto] power_of_two(p) && r@ == p * 1536 && quarter_beats(time@) < p
            && (p == 1 || p / 2 <= quarter_beats(time@)),
{
    let n = quarter_beats_of(time);
    let p = next_power_of_two(n);
    MidiTime::from_fractions(p as i64 * 1536)
}

/// Which of `count` equal buckets a controller value (0..127) falls in.
pub fn cc_bucket(value: u8, count: usize) -> (r: usize)
    requires
        count < 0x0100_0000,
    ensures
        r == if count == 0 { 0 } else if (value * count) / 128 < count - 1 { (value * count) / 128 } else { count - 1 },
{
    assert(value as int * count as int <= 255 * 0x0100_0000) by (nonlinear_arith)
        requires
            count < 0x0100_0000,
    ;
    let b = (value as usize * count) / 128;
    let top = if count == 0 { 0 } else { count - 1 };
    if b < top { b } else { top }
}

/// Stores a trigger's new value, answering the value when its on/off state changed (or
/// when the trigger had none), and nothing when only the velocity changed.
pub fn maybe_update(hash_map: &mut HashMap<u32, OutputValue>, key: u32, new_value: OutputValue) -> (r: Option<OutputValue>)
    ensures
        final(hash_map)@ == old(hash_map)@.insert(key, new_value),
        r == (if old(hash_map)@.contains_key(key) && (old(hash_map)@[key] is On) == (new_value is On) {
            None
        } else {
            Some(new_value)
        }),
{
    broadcast use vstd::std_specs::hash::group_hash_axioms;
    match hash_map.insert(key, new_value) {
        Some(old_value) => {
            if old_value.is_on() != new_value.is_on() {
                Some(new_value)
            } else {
                None
            }
        }
        None => Some(new_value),
    }
}

/// The note of grid trigger `id`: the first 80 from note 8, the rest from note 96.
pub open spec fn grid_note(id: int) -> int {
    if id < 80 { 8 + id } else { 96 + (id - 80) }
}

/// Both directions of the map between grid notes and grid trigger ids.
#[verifier::spinoff_prover]
pub fn get_grid_map() -> (r: (HashMap<u8, u32>, HashMap<u32, u8>))
    ensures
        forall|id: u32| r.1@.contains_key(id) <==> id < PLAYABLE_GRID_SIZE,
        forall|id: u32| #![auto] id < PLAYABLE_GRID_SIZE ==> r.1@[id] == grid_note(id as int)
            && r.0@.contains_key(r.1@[id]) && r.0@[r.1@[id]] == id,
        forall|note: u8| #![auto] r.0@.contains_key(note) ==> r.0@[note] < PLAYABLE_GRID_SIZE
            && grid_note(r.0@[note] as int) == note,
{
    broadcast use vstd::std_specs::hash::group_hash_axioms;
    let mut midi_to_id: HashMap<u8, u32> = HashMap::new();
    let mut id_to_midi: HashMap<u32, u8> = HashMap::new();
    let mut id: u32 = 0;
    while id < PLAYABLE_GRID_SIZE
        invariant
            id <= PLAYABLE_GRID_SIZE,
            forall|i: u32| id_to_midi@.contains_key(i) <==> i < id,
            forall|i: u32| #![auto] i < id ==> id_to_midi@[i] == grid_note(i as int)
                && midi_to_id@.contains_key(id_to_midi@[i]) && midi_to_id@[id_to_midi@[i]] == i,
            forall|note: u8| #![auto] midi_to_id@.contains_key(note) ==> midi_to_id@[note] < id
                && grid_note(midi_to_id@[note] as int) == note,
        decreases PLAYABLE_GRID_SIZE - id,
    {
        let midi: u8 = if id < 80 {
            GRID_NOTE_START + id as u8
        } else {
            GRID_2_NOTE_START + (id as u8 - 80)
        };
        midi_to_id.insert(midi, id);
        id_to_midi.insert(id, midi);
        proof {
            assert forall|i: u32| #![auto] i < id + 1 implies id_to_midi@[i] == grid_note(i as int)
                && midi_to_id@.contains_key(id_to_midi@[i]) && midi_to_id@[id_to_midi@[i]] == i by {
                if i < id {
                    assert(grid_note(i as int) != grid_note(id as int));
                }
            }
        }
        id += 1;
    }
    (midi_to_id, id_to_midi)
}


/// The members of `a` that `b` lacks, each once, in the order `a` is walked.
fn missing_from(a: &HashSet<u32>, b: &HashSet<u32>) -> (r: Vec<u32>)
    ensures
        r@.to_set() == a@.difference(b@),
        r@.no_duplicates(),
{
    broadcast use vstd::std_specs::hash::group_hash_axioms;
    let mut result: Vec<u32> = Vec::new();
    let ghost all = a.iter().remaining();
    for id in it: a.iter()
        invariant
            it.seq() == all,
            all.unref().to_set() == a@,
            all.no_duplicates(),
            forall|x: u32| #![auto] result@.contains(x) <==> (exists|k: int| 0 <= k < it.index() && *all[k] == x) && !b@.contains(x),
            result@.no_duplicates(),
    {
        if !b.contains(id) {
            proof {
                assert forall|k: int| 0 <= k < it.index() implies *all[k] != *id by {
                    if *all[k] == *id {
                        assert(all[k] == all[it.index() as int]);
                    }
                }
            }
            let ghost prev = result@;
            result.push(*id);
            proof {
                assert(result@.drop_last() == prev);
                assert forall|x: u32| #![auto] result@.contains(x) <==> (exists|k: int| 0 <= k < it.index() + 1 && *all[k] == x) && !b@.contains(x) by {
                    if result@.contains(x) && x != *id {
                        let j = choose|j: int| 0 <= j < result@.len() && result@[j] == x;
                        assert(result@.drop_last().contains(x)) by {
                            assert(result@.drop_last()[j] == x);
                        }
                    }
                    if (exists|k: int| 0 <= k < it.index() + 1 && *all[k] == x) && !b@.contains(x) && x != *id {
                        let k = choose|k: int| 0 <= k < it.index() + 1 && *all[k] == x;
                        assert(k < it.index());
                        assert(result@.drop_last().contains(x));
                        let j = choose|j: int| 0 <= j < result@.drop_last().len() && result@.drop_last()[j] == x;
                        assert(result@[j] == x);
                    }
                    if x == *id {
                        assert(result@[result@.len() - 1] == x);
                    }
                }
                assert forall|i: int, j: int| 0 <= i < j < result@.len() implies result@[i] != result@[j] by {
                    if j == result@.len() - 1 {
                        assert(result@.drop_last().contains(result@[i])) by {
                            assert(result@.drop_last()[i] == result@[i]);
                        }
                    }
                }
            }
        } else {
            proof {
                assert forall|x: u32| #![auto] result@.contains(x) <==> (exists|k: int| 0 <= k < it.index() + 1 && *all[k] == x) && !b@.contains(x) by {
                    if (exists|k: int| 0 <= k < it.index() + 1 && *all[k] == x) && !b@.contains(x) {
                        let k = choose|k: int| 0 <= k < it.index() + 1 && *all[k] == x;
                        assert(k < it.index());
                    }
                }
            }
        }
    }
    proof {
        assert forall|x: u32| result@.to_set().contains(x) <==> a@.difference(b@).contains(x) by {
            if a@.contains(x) {
                assert(all.unref().to_set().contains(x));
                let k = choose|k: int| 0 <= k < all.unref().len() && all.unref()[k] == x;
                assert(*all[k] == x);
            }
            if result@.contains(x) {
                let k = choose|k: int| 0 <= k < all.len() && *all[k] == x;
                assert(all.unref()[k] == x);
                assert(all.unref().to_set().contains(x));
            }
        }
        assert(result@.to_set() =~= a@.difference(b@));
    }
    result
}

/// Brings `b` to the members of `a`, answering which ids were added and which removed.
pub fn update_ids(a: &HashSet<u32>, b: &mut HashSet<u32>) -> (r: (Vec<u32>, Vec<u32>))
    ensures
        final(b)@ == a@,
        r.0@.to_set() == a@.difference(old(b)@),
        r.0@.no_duplicates(),
        r.1@.to_set() == old(b)@.difference(a@),
        r.1@.no_duplicates(),
{
    broadcast use vstd::std_specs::hash::group_hash_axioms;
    let added = missing_from(a, b);
    let removed = missing_from(b, a);
    let ghost b0 = b@;
    let mut i: usize = 0;
    while i < added.len()
        invariant
            i <= added@.len(),
            b@ == b0.union(added@.subrange(0, i as int).to_set()),
        decreases added@.len() - i,
    {
        b.insert(added[i]);
        proof {
            assert(added@.subrange(0, i as int + 1) == added@.subrange(0, i as int).push(added@[i as int]));
            added@.subrange(0, i as int).lemma_push_to_set_commute(added@[i as int]);
            assert(b@ =~= b0.union(added@.subrange(0, i as int + 1).to_set()));
        }
        i += 1;
    }
    proof {
        assert(added@.subrange(0, added@.len() as int) == added@);
    }
    let ghost b1 = b@;
    let mut j: usize = 0;
    while j < removed.len()
        invariant
            j <= removed@.len(),
            b@ == b1.difference(removed@.subrange(0, j as int).to_set()),
        decreases removed@.len() - j,
    {
        b.remove(&removed[j]);
        proof {
            assert(removed@.subrange(0, j as int + 1) == removed@.subrange(0, j as int).push(removed@[j as int]));
            removed@.subrange(0, j as int).lemma_push_to_set_commute(removed@[j as int]);
            assert(b@ =~= b1.difference(removed@.subrange(0, j as int + 1).to_set()));
        }
        j += 1;
    }
    proof {
        assert(removed@.subrange(0, removed@.len() as int) == removed@);
        assert(b@ =~= a@);
    }
    (added, removed)
}

/// The swing amount shown for a controller value: the value scaled from 0..127 to
/// 0..50, rounded to the nearest whole number.
pub open spec fn swing_amount(value: int) -> int {
    (value * 100 + 127) / 254
}

/// The swing amount shown for a controller value, in decimal.
pub fn swing_overlay_value(value: u8) -> (r: String)
    ensures
        r@ == decimal_digits(swing_amount(value as int) as nat),
{
    let amount = ((value as u32 * 100 + 127) / 254) as u8;
    decimal_string(amount as u32)
}


/// Longest loop range the grid works with, in fractional steps (2^28 ticks).
pub open spec fn max_span() -> int {
    0x10_0000_0000
}

/// A transform the grid can compose and play: a range has a positive length of at most
/// `max_span()` and lies far enough inside the representable times that a range and a
/// clock window of that span fit after it.
pub open spec fn bounded(t: LoopTransform) -> bool {
    t is Range ==> {
        &&& 0 < t->Range_length@ <= max_span()
        &&& min_fractions() + max_span() <= t->Range_pos@
        &&& t->Range_pos@ + 2 * max_span() < max_fractions()
    }
}

/// Bounded transforms compose, and what they compose to is bounded again.
pub proof fn lemma_bounded_apply(t: LoopTransform, previous: LoopTransform)
    requires
        bounded(t),
        bounded(previous),
    ensures
        apply_defined(t, previous),
        bounded(spec_apply(t, previous)),
{
    if t is Range && previous is Range {
        let w = wrap(t->Range_pos@, previous->Range_length@);
        assert(0 <= w < previous->Range_length@);
    }
}

/// Every transform of a loop is bounded.
pub open spec fn collection_bounded(c: LoopCollection) -> bool {
    forall|k: u32| #[trigger] c.transforms@.contains_key(k) ==> bounded(c.transforms@[k])
}

/// Where a repeated or quantized press stands in its cycle.
#[derive(Debug, Copy, Clone, PartialEq, Eq, Structural)]
pub enum RepeatPhase {
    Idle,
    Pending,
    QuantizePending,
    QuantizeCurrent,
    Current,
    Triggered,
}

/// A press being repeated or quantized: its phase, what it plays, and until when.
#[derive(Debug, Copy, Clone, PartialEq, Eq, Structural)]
pub struct RepeatState {
    pub phase: RepeatPhase,
    pub transform: LoopTransform,
    pub to: MidiTime,
}

/// Which triggers a clear acts on.
#[derive(Debug, Copy, Clone, PartialEq, Eq, Structural)]
pub enum TransformTarget {
    All,
    Main,
    Selected,
}

/// The value a map holds for a key, or `Empty`.
pub open spec fn transform_or_empty(m: Map<u32, LoopTransform>, k: u32) -> LoopTransform {
    if m.contains_key(k) { m[k] } else { LoopTransform::Empty }
}

/// The playing state of the grid: what was recorded, the loop history, what is held,
/// selected, overridden and repeating, and what each trigger currently plays.
pub struct LoopGrid {
    pub recorder: LoopRecorder,
    pub loop_state: LoopState,
    pub loop_length: MidiTime,
    pub rate: MidiTime,
    pub trigger_mode: TriggerMode,
    pub trigger_override_held: bool,
    pub selection: HashSet<u32>,
    pub selection_override: LoopTransform,
    pub no_suppress: HashSet<u32>,
    pub no_suppress_held: HashSet<u32>,
    pub sustained_values: HashMap<u32, LoopTransform>,
    pub override_values: HashMap<u32, LoopTransform>,
    pub repeat_states: HashMap<u32, RepeatState>,
    pub out_transforms: HashMap<u32, LoopTransform>,
    pub out_values: HashMap<u32, OutputValue>,
    pub last_pos: MidiTime,
    pub last_length: MidiTime,
    pub last_raw_pos: MidiTime,
    pub last_raw_length: MidiTime,
    pub straight_timing_ids: HashSet<u32>,
    pub loop_from: MidiTime,
    pub last_loop_snapshot: Option<LoopSnapshot>,
    pub last_triggered: TriggerHistory,
    pub currently_held_inputs: Vec<u32>,
    pub last_changed_triggers: HashMap<u32, MidiTime>,
    pub input_values: HashMap<u32, OutputValue>,
    pub active: HashSet<u32>,
    pub select_held: bool,
    pub loop_held: bool,
    pub selection_override_offset: Option<isize>,
    pub mapping: HashMap<u32, MidiMap>,
    pub chunk_repeat_modes: Vec<RepeatMode>,
    pub preserve_immediate_until_release: HashSet<u32>,
    pub suppressing: bool,
    pub holding: bool,
    pub holding_at: MidiTime,
    pub repeat_off_beat: bool,
    pub current_bank: u8,
    pub swing_value: u8,
    pub tempo_value: u8,
    pub last_flatten_press_ms: u64,
    pub reset_automation: bool,
}

/// What the last finished loop recorded: where it started, how long it was, when each
/// trigger last changed, and which triggers it captured.
pub struct LoopSnapshot {
    pub loop_from: MidiTime,
    pub loop_length: MidiTime,
    pub last_changed_triggers: HashMap<u32, MidiTime>,
    pub recording_ids: HashSet<u32>,
}

/// The triggers a loop taken again from `pos` captures: those the last loop captured and
/// those that changed after `pos`.
pub open spec fn reloop_ids(snapshot: LoopSnapshot, pos: int) -> Set<u32> {
    snapshot.recording_ids@ + Set::new(|id: u32| snapshot.last_changed_triggers@.contains_key(id)
        && snapshot.last_changed_triggers@[id]@ > pos)
}

impl LoopGrid {
    /// The recorder and history are sound, every transform the grid holds is bounded, and
    /// the selection override follows the suppress and repeat buttons.
    pub open spec fn well_formed(&self) -> bool {
        &&& self.recorder.well_formed()
        &&& history_ok(self.loop_state@)
        &&& bounded(self.selection_override)
        &&& self.selection_override == selection_override_for(self.suppressing, self.holding, self.holding_at, self.rate)
        &&& forall|k: u32| #[trigger] self.override_values@.contains_key(k) ==> bounded(self.override_values@[k])
        &&& forall|k: u32| #[trigger] self.sustained_values@.contains_key(k) ==> bounded(self.sustained_values@[k])
        &&& forall|k: u32| #[trigger] self.repeat_states@.contains_key(k) ==> bounded(self.repeat_states@[k].transform)
        &&& forall|k: u32| #[trigger] self.out_transforms@.contains_key(k) ==> bounded(self.out_transforms@[k])
    }

    /// What trigger `id` plays: its loop transform (from the override loop while it is
    /// selected and there is one), with the held override (or, without one, the sustained
    /// value) laid over it, then the selection override when the trigger is selected (or
    /// nothing is selected and the trigger is not protected from suppression) and still
    /// active; a pending or running repeat replaces all of it, a pending quantized press
    /// silences it.
    pub open spec fn transform_for(
        &self,
        id: u32,
        loop_collection: LoopCollection,
        override_collection: Option<LoopCollection>,
    ) -> LoopTransform {
        let collection = if self.selection@.contains(id) && override_collection is Some {
            override_collection->0
        } else {
            loop_collection
        };
        let r0 = spec_apply(transform_or_empty(collection.transforms@, id), LoopTransform::Empty);
        let avoid_suppress = (self.no_suppress_held@.contains(id) && r0 is Value) || self.no_suppress@.contains(id);
        let sustained = transform_or_empty(self.sustained_values@, id);
        let r1 = if self.override_values@.contains_key(id) {
            let v = self.override_values@[id];
            if v == LoopTransform::Empty { spec_apply(sustained, r0) } else { spec_apply(v, r0) }
        } else if self.sustained_values@.contains_key(id) {
            spec_apply(sustained, r0)
        } else {
            r0
        };
        let r1_active = !(r1 == LoopTransform::Value(OutputValue::Off) || r1 is Empty);
        let r2 = if ((self.selection@.len() == 0 && !avoid_suppress) || self.selection@.contains(id)) && r1_active {
            spec_apply(self.selection_override, r1)
        } else {
            r1
        };
        if self.repeat_states@.contains_key(id) {
            let rs = self.repeat_states@[id];
            if rs.phase == RepeatPhase::QuantizePending {
                LoopTransform::Empty
            } else if rs.phase != RepeatPhase::Idle {
                rs.transform
            } else {
                r2
            }
        } else {
            r2
        }
    }

    /// What trigger `id` plays given the loop and (for selected triggers) the override loop.
    pub fn get_transform(
        &self,
        id: u32,
        loop_collection: &LoopCollection,
        override_collection: Option<&LoopCollection>,
    ) -> (r: LoopTransform)
        requires
            self.well_formed(),
            collection_bounded(*loop_collection),
            override_collection matches Some(c) ==> collection_bounded(*c),
        ensures
            r == self.transform_for(
                id,
                *loop_collection,
                match override_collection {
                    Some(c) => Some(*c),
                    None => None,
                },
            ),
            bounded(r),
    {
        broadcast use vstd::std_specs::hash::group_hash_axioms;
        let mut result = LoopTransform::Empty;
        let collection = if self.selection.contains(&id) && override_collection.is_some() {
            override_collection.unwrap()
        } else {
            loop_collection
        };
        proof {
            assert(collection_bounded(*collection));
        }
        if let Some(transform) = collection.transforms.get(id) {
            proof {
                assert(collection.transforms@.contains_key(id));
                lemma_bounded_apply(transform, result);
            }
            result = transform.apply(&result);
        }
        let avoid_suppress = (self.no_suppress_held.contains(&id) && matches!(result, LoopTransform::Value(..)))
            || self.no_suppress.contains(&id);
        let sustained_value = self.sustained_values.get(&id);
        if let Some(value) = self.override_values.get(&id) {
            if *value == LoopTransform::Empty {
                let s = match sustained_value {
                    Some(s) => *s,
                    None => LoopTransform::Empty,
                };
                proof {
                    lemma_bounded_apply(s, result);
                }
                result = s.apply(&result);
            } else {
                proof {
                    lemma_bounded_apply(*value, result);
                }
                result = value.apply(&result);
            }
        } else if let Some(s) = sustained_value {
            proof {
                lemma_bounded_apply(*s, result);
            }
            result = s.apply(&result);
        }
        if ((self.selection.len() == 0 && !avoid_suppress) || self.selection.contains(&id)) && result.is_active() {
            proof {
                lemma_bounded_apply(self.selection_override, result);
            }
            result = self.selection_override.apply(&result);
        }
        if let Some(repeat_state) = self.repeat_states.get(&id) {
            if repeat_state.phase == RepeatPhase::QuantizePending {
                result = LoopTransform::Empty;
            } else if repeat_state.phase != RepeatPhase::Idle {
                result = repeat_state.transform;
            }
        }
        result
    }
}


/// Where a range loop is in its recording when the clock is at `position`: the range
/// repeats with its own length, aligned so that it starts at `pos`.
pub open spec fn playback_position(pos: int, length: int, position: int) -> int {
    pos + wrap(position - wrap(pos, length), length)
}

/// Whether the recording of trigger `id` has an event in `[start, end)`.
pub open spec fn has_events_in(events: Seq<LoopEvent>, start: int, end: int) -> bool {
    exists|i: int| 0 <= i < events.len() && start <= #[trigger] events[i].pos@ < end
}

impl LoopGrid {
    /// The value to send for trigger `id` at clock `position`, given the transform it
    /// played before (`compare`): nothing when the transform is the same kind and place as
    /// before (a held value that keeps its on/off state, the same range, the same repeat
    /// grid); for a range, the recorded value in effect at the playback position, except
    /// that a press followed within a beat by the next event sends nothing; releases
    /// otherwise.
    pub open spec fn value_for(&self, id: u32, position: int, compare: Option<LoopTransform>) -> Option<OutputValue> {
        match transform_or_empty(self.out_transforms@, id) {
            LoopTransform::Value(v) => match compare {
                Some(LoopTransform::Value(rv)) => if (v is On) == (rv is On) { None } else { Some(v) },
                _ => Some(v),
            },
            LoopTransform::Range { pos, length } => {
                let same = match compare {
                    Some(LoopTransform::Range { pos: rp, length: rl }) => rp == pos && rl == length,
                    _ => false,
                };
                if same {
                    None
                } else {
                    let p = playback_position(pos@, length@, position);
                    let events = self.recorder.events(id);
                    let k = upper_index(events, p);
                    if k > 0 && events[k - 1].value is On {
                        if k < events.len() && events[k].pos@ - p < 6144 {
                            None
                        } else {
                            Some(events[k - 1].value)
                        }
                    } else {
                        Some(OutputValue::Off)
                    }
                }
            },
            LoopTransform::Repeat { rate, offset, .. } => match compare {
                Some(LoopTransform::Repeat { rate: rr, offset: ro, .. }) => if rr == rate && ro == offset {
                    None
                } else {
                    Some(OutputValue::Off)
                },
                _ => Some(OutputValue::Off),
            },
            LoopTransform::Empty => Some(OutputValue::Off),
        }
    }

    /// The value to send for trigger `id` at clock `position`.
    pub fn get_value(&self, id: u32, position: MidiTime, compare_value: Option<LoopTransform>) -> (r: Option<OutputValue>)
        requires
            self.well_formed(),
            min_fractions() + max_span() <= position@,
        ensures
            r == self.value_for(id, position@, compare_value),
    {
        broadcast use vstd::std_specs::hash::group_hash_axioms;
        let transform = match self.out_transforms.get(&id) {
            Some(t) => *t,
            None => LoopTransform::Empty,
        };
        match transform {
            LoopTransform::Value(value) => {
                if let Some(LoopTransform::Value(r_value)) = compare_value {
                    if value.is_on() == r_value.is_on() {
                        return None;
                    }
                }
                Some(value)
            }
            LoopTransform::Range { pos: range_pos, length: range_length } => {
                if let Some(LoopTransform::Range { pos: r_pos, length: r_length }) = compare_value {
                    if r_pos == range_pos && r_length == range_length {
                        return None;
                    }
                }
                proof {
                    assert(self.out_transforms@.contains_key(id));
                    crate::midi_time::lemma_view_fits(position);
                }
                let playback_offset = range_pos.modulo(range_length);
                let within = position.minus(playback_offset).modulo(range_length);
                let playback_pos = range_pos.plus(within);
                match self.recorder.get_event_at(id, playback_pos) {
                    Some(event) => {
                        if event.is_on() {
                            match self.recorder.get_next_event_at(id, playback_pos) {
                                Some(next_event) => {
                                    proof {
                                        crate::midi_time::lemma_view_fits(next_event.pos);
                                        crate::midi_time::lemma_view_fits(playback_pos);
                                    }
                                    if next_event.pos.fractions() - playback_pos.fractions() < 6144 {
                                        None
                                    } else {
                                        Some(event.value)
                                    }
                                }
                                None => Some(event.value),
                            }
                        } else {
                            Some(OutputValue::Off)
                        }
                    }
                    None => Some(OutputValue::Off),
                }
            }
            LoopTransform::Repeat { rate, offset, .. } => {
                if let Some(LoopTransform::Repeat { rate: r_rate, offset: r_offset, .. }) = compare_value {
                    if r_rate == rate && r_offset == offset {
                        return None;
                    }
                }
                Some(OutputValue::Off)
            }
            LoopTransform::Empty => Some(OutputValue::Off),
        }
    }

    /// What looping trigger `id` over `[from, from + length)` keeps: the range when the
    /// trigger has events in it, else the value in effect at `from`, else nothing.
    pub open spec fn captured(&self, id: u32, from: MidiTime, length: MidiTime) -> LoopTransform {
        let events = self.recorder.events(id);
        if has_events_in(events, from@, from@ + length@) {
            LoopTransform::Range { pos: from, length }
        } else if upper_index(events, from@) > 0 {
            LoopTransform::Value(events[upper_index(events, from@) - 1].value)
        } else {
            LoopTransform::Empty
        }
    }

    /// What looping trigger `id` over `[from, from + length)` keeps.
    pub fn capture_transform(&self, id: u32, from: MidiTime, length: MidiTime) -> (r: LoopTransform)
        requires
            self.well_formed(),
            fits(from@ + length@),
        ensures
            r == self.captured(id, from, length),
    {
        let end = from.plus(length);
        let has_events = match self.recorder.get_range_for(id, from, end) {
            Some(events) => {
                proof {
                    let all = self.recorder.events(id);
                    if events@.len() > 0 {
                        assert(events@.contains(events@[0]));
                        let i = choose|i: int| 0 <= i < all.len() && all[i] == events@[0];
                        assert(from@ <= all[i].pos@ < from@ + length@);
                    }
                    if has_events_in(all, from@, from@ + length@) {
                        let i = choose|i: int| 0 <= i < all.len() && from@ <= #[trigger] all[i].pos@ < from@ + length@;
                        assert(all.contains(all[i]));
                        assert(events@.contains(all[i]));
                    }
                }
                events.len() > 0
            },
            None => {
                proof {
                    self.recorder.lemma_unrecorded(id);
                }
                false
            },
        };
        if has_events {
            LoopTransform::Range { pos: from, length }
        } else {
            match self.recorder.get_event_at(id, from) {
                Some(event) => LoopTransform::Value(event.value),
                None => LoopTransform::Empty,
            }
        }
    }
}


/// A clock window the grid can play in: its start lies far enough inside the representable
/// times that a range and a window of `max_span()` fit after it, and it is at most that long.
pub open spec fn timing_ok(pos: MidiTime, length: MidiTime) -> bool {
    &&& min_fractions() + max_span() <= pos@
    &&& pos@ + 2 * max_span() < max_fractions()
    &&& length@ <= max_span()
}

/// Whether a clock window can be played (see `timing_ok`).
pub fn timing_fits(pos: MidiTime, length: MidiTime) -> (r: bool)
    ensures
        r == timing_ok(pos, length),
{
    let p = pos.fractions() as i128;
    let l = length.fractions() as i128;
    let span: i128 = 0x10_0000_0000;
    let min: i128 = -2147483648i128 * 256;
    let max: i128 = 2147483648i128 * 256;
    min + span <= p && p + 2 * span < max && l <= span
}

/// A repeat the grid can play: a positive rate of at most `max_span()` on a grid whose
/// offset lies that far inside the representable times.
pub open spec fn repeat_ok(t: LoopTransform) -> bool {
    t is Repeat ==> {
        &&& 0 < t->Repeat_rate@ <= max_span()
        &&& min_fractions() + max_span() <= t->Repeat_offset@
        &&& t->Repeat_offset@ + max_span() < max_fractions()
    }
}

/// `e` is the recorded event `f` moved by `d`.
pub open spec fn is_shift(e: LoopEvent, f: LoopEvent, d: int) -> bool {
    e.id == f.id && e.value == f.value && e.pos@ == f.pos@ + d
}

impl LoopGrid {
    /// The clock position trigger `id` plays at: the unswung one for triggers with straight
    /// timing.
    pub open spec fn pos_for(&self, id: u32) -> MidiTime {
        if self.straight_timing_ids@.contains(id) { self.last_raw_pos } else { self.last_pos }
    }

    /// The length of the clock window trigger `id` plays in.
    pub open spec fn length_for(&self, id: u32) -> MidiTime {
        if self.straight_timing_ids@.contains(id) { self.last_raw_length } else { self.last_length }
    }

    /// The events trigger `id` plays in its clock window under transform `t`: for a range,
    /// the value in effect at the range start when the window crosses it, and the recorded
    /// events of the matching stretch of the range moved into the window; for a repeat, the
    /// press and the release (half a rate later) that fall in the window; nothing otherwise,
    /// or when the window is empty.
    pub open spec fn transform_playback(&self, id: u32, t: LoopTransform) -> Set<LoopEvent> {
        let position = self.pos_for(id);
        let length = self.length_for(id);
        if length@ <= 0 {
            Set::empty()
        } else {
            match t {
                LoopTransform::Range { pos, length: range_length } => {
                    let pb = playback_position(pos@, range_length@, position@);
                    let start = if pos@ >= pb && pos@ < pb + length@ {
                        match self.value_for(id, pos@, None) {
                            Some(v) => Set::empty().insert(LoopEvent { id, pos: position, value: v }),
                            None => Set::empty(),
                        }
                    } else {
                        Set::empty()
                    };
                    start + Set::new(|e: LoopEvent| exists|f: LoopEvent| #[trigger] self.recorder.events(id).contains(f)
                        && pb <= f.pos@ < pb + length@ && is_shift(e, f, position@ - pb))
                },
                LoopTransform::Repeat { rate, offset, value } => {
                    let on = next_repeat_time(position@, rate@, offset@);
                    let off = next_repeat_time(position@, rate@, offset@ + rate@ / 2);
                    Set::new(|e: LoopEvent| e.id == id && (
                        (e.value == value && e.pos@ == on && position@ <= on < position@ + length@)
                        || (e.value == OutputValue::Off && e.pos@ == off && position@ <= off < position@ + length@)))
                },
                _ => Set::empty(),
            }
        }
    }

    /// Everything the grid plays in the current clock window.
    pub open spec fn playback(&self) -> Set<LoopEvent> {
        Set::new(|e: LoopEvent| self.out_transforms@.contains_key(e.id)
            && self.transform_playback(e.id, self.out_transforms@[e.id]).contains(e))
    }

    /// The grid's clock windows and transforms can be played.
    pub open spec fn playable(&self) -> bool {
        &&& self.well_formed()
        &&& timing_ok(self.last_pos, self.last_length)
        &&& timing_ok(self.last_raw_pos, self.last_raw_length)
        &&& forall|k: u32| #[trigger] self.out_transforms@.contains_key(k) ==> repeat_ok(self.out_transforms@[k])
    }

    /// The clock position trigger `id` plays at.
    pub fn pos_for_id(&self, id: u32) -> (r: MidiTime)
        ensures
            r == self.pos_for(id),
    {
        if self.straight_timing_ids.contains(&id) { self.last_raw_pos } else { self.last_pos }
    }

    /// The length of the clock window trigger `id` plays in.
    pub fn length_for_id(&self, id: u32) -> (r: MidiTime)
        ensures
            r == self.length_for(id),
    {
        if self.straight_timing_ids.contains(&id) { self.last_raw_length } else { self.last_length }
    }

    proof fn lemma_playback_ids(&self, id: u32, t: LoopTransform)
        requires
            self.recorder.well_formed(),
        ensures
            forall|e: LoopEvent| #[trigger] self.transform_playback(id, t).contains(e) ==> e.id == id,
    {
        self.recorder.lemma_events(id);
        assert forall|e: LoopEvent| #[trigger] self.transform_playback(id, t).contains(e) implies e.id == id by {
            if t is Range && self.length_for(id)@ > 0 {
                let position = self.pos_for(id);
                let pb = playback_position(t->Range_pos@, t->Range_length@, position@);
                let length = self.length_for(id);
                let moved = Set::new(|e: LoopEvent| exists|f: LoopEvent| #[trigger] self.recorder.events(id).contains(f)
                    && pb <= f.pos@ < pb + length@ && is_shift(e, f, position@ - pb));
                if moved.contains(e) {
                    let f = choose|f: LoopEvent| #[trigger] self.recorder.events(id).contains(f)
                        && pb <= f.pos@ < pb + length@ && is_shift(e, f, position@ - pb);
                    let i = choose|i: int| 0 <= i < self.recorder.events(id).len() && self.recorder.events(id)[i] == f;
                    assert(self.recorder.events(id)[i].id == id);
                }
            }
        }
    }

    /// Adds to `result` the events trigger `id` plays under transform `t`.
    fn play_transform(&self, id: u32, t: LoopTransform, result: &mut Vec<LoopEvent>)
        requires
            self.playable(),
            self.out_transforms@.contains_key(id),
            t == self.out_transforms@[id],
            sorted_events(old(result)@),
        ensures
            sorted_events(final(result)@),
            final(result)@.to_set() == old(result)@.to_set() + self.transform_playback(id, t),
    {
        let position = self.pos_for_id(id);
        let length = self.length_for_id(id);
        proof {
            lemma_view_fits(position);
            lemma_view_fits(length);
        }
        if length.fractions() <= 0 {
            assert(result@.to_set() =~= old(result)@.to_set() + self.transform_playback(id, t));
            return;
        }
        match t {
            LoopTransform::Range { pos: range_pos, length: range_length } => {
                assert(bounded(t));
                let playback_offset = range_pos.modulo(range_length);
                let within = position.minus(playback_offset).modulo(range_length);
                let playback_pos = range_pos.plus(within);
                let ghost pb = playback_position(range_pos@, range_length@, position@);
                assert(playback_pos@ == pb);
                let ghost before = result@.to_set();
                let ghost start = if range_pos@ >= pb && range_pos@ < pb + length@ {
                    match self.value_for(id, range_pos@, None) {
                        Some(v) => Set::empty().insert(LoopEvent { id, pos: position, value: v }),
                        None => Set::empty(),
                    }
                } else {
                    Set::empty()
                };
                if range_pos.fractions() >= playback_pos.fractions()
                    && range_pos.fractions() < playback_pos.fractions() + length.fractions() {
                    if let Some(value) = self.get_value(id, range_pos, None) {
                        LoopEvent { id, pos: position, value }.insert_into(result);
                    }
                }
                assert(result@.to_set() =~= before + start);
                let end = playback_pos.plus(length);
                let shift = position.fractions() - playback_pos.fractions();
                let ghost d = position@ - pb;
                let ghost moved = Set::new(|e: LoopEvent| exists|f: LoopEvent| #[trigger] self.recorder.events(id).contains(f)
                    && pb <= f.pos@ < pb + length@ && is_shift(e, f, d));
                match self.recorder.get_range_for(id, playback_pos, end) {
                    Some(events) => {
                        let mut j: usize = 0;
                        while j < events.len()
                            invariant
                                0 <= j <= events@.len(),
                                sorted_events(result@),
                                result@.to_set() == before + start + Set::new(|e: LoopEvent| exists|k: int| 0 <= k < j && is_shift(e, #[trigger] events@[k], d)),
                                forall|f: LoopEvent| events@.contains(f) <==> (self.recorder.events(id).contains(f) && pb <= f.pos@ < pb + length@),
                                shift == d,
                                d == position@ - pb,
                                min_fractions() + max_span() <= position@,
                                position@ + 2 * max_span() < max_fractions(),
                                0 < length@ <= max_span(),
                            decreases events@.len() - j,
                        {
                            let f = events[j];
                            assert(events@.contains(f));
                            proof {
                                lemma_view_fits(f.pos);
                            }
                            let moved_event = LoopEvent { id: f.id, value: f.value, pos: MidiTime::from_fractions(f.pos.fractions() + shift) };
                            let ghost old_set = result@.to_set();
                            moved_event.insert_into(result);
                            proof {
                                let lhs = Set::new(|e: LoopEvent| exists|k: int| 0 <= k < j + 1 && is_shift(e, #[trigger] events@[k], d));
                                let rhs = Set::new(|e: LoopEvent| exists|k: int| 0 <= k < j && is_shift(e, #[trigger] events@[k], d));
                                assert(is_shift(moved_event, events@[j as int], d));
                                assert forall|e: LoopEvent| lhs.contains(e) implies #[trigger] rhs.insert(moved_event).contains(e) by {
                                    let k = choose|k: int| 0 <= k < j + 1 && is_shift(e, #[trigger] events@[k], d);
                                    if k == j {
                                        lemma_view_determines(e.pos, moved_event.pos);
                                    } else {
                                        assert(rhs.contains(e));
                                    }
                                }
                                assert forall|e: LoopEvent| #[trigger] rhs.insert(moved_event).contains(e) implies lhs.contains(e) by {
                                    if e == moved_event {
                                        assert(is_shift(e, events@[j as int], d));
                                    } else {
                                        let k = choose|k: int| 0 <= k < j && is_shift(e, #[trigger] events@[k], d);
                                        assert(is_shift(e, events@[k], d));
                                    }
                                }
                                assert(lhs =~= rhs.insert(moved_event));
                                assert(result@.to_set() =~= before + start + lhs);
                            }
                            j = j + 1;
                        }
                        proof {
                            let got = Set::new(|e: LoopEvent| exists|k: int| 0 <= k < events@.len() && is_shift(e, #[trigger] events@[k], d));
                            assert forall|e: LoopEvent| got.contains(e) implies #[trigger] moved.contains(e) by {
                                let k = choose|k: int| 0 <= k < events@.len() && is_shift(e, #[trigger] events@[k], d);
                                let f = events@[k];
                                assert(events@.contains(f));
                                assert(self.recorder.events(id).contains(f));
                            }
                            assert forall|e: LoopEvent| #[trigger] moved.contains(e) implies got.contains(e) by {
                                let f = choose|f: LoopEvent| #[trigger] self.recorder.events(id).contains(f)
                                    && pb <= f.pos@ < pb + length@ && is_shift(e, f, d);
                                assert(events@.contains(f));
                                let k = choose|k: int| 0 <= k < events@.len() && events@[k] == f;
                                assert(is_shift(e, events@[k], d));
                            }
                            assert(got =~= moved);
                        }
                    },
                    None => {
                        proof {
                            self.recorder.lemma_unrecorded(id);
                            assert(moved =~= Set::empty());
                            assert(Set::new(|e: LoopEvent| exists|k: int| 0 <= k < 0 && is_shift(e, #[trigger] self.recorder.events(id)[k], d)) =~= Set::empty());
                        }
                    },
                }
                assert(result@.to_set() =~= old(result)@.to_set() + self.transform_playback(id, t));
            },
            LoopTransform::Repeat { rate, offset, value } => {
                let ghost before = result@.to_set();
                let next_on = next_repeat(position, rate, offset);
                let next_off = next_repeat(position, rate, offset.plus(rate.half()));
                let to = position.fractions() + length.fractions();
                let on_event = LoopEvent { value, pos: next_on, id };
                let off_event = LoopEvent { value: OutputValue::Off, pos: next_off, id };
                let on_in = position.fractions() <= next_on.fractions() && next_on.fractions() < to;
                let off_in = position.fractions() <= next_off.fractions() && next_off.fractions() < to;
                if on_in {
                    on_event.insert_into(result);
                }
                if off_in {
                    off_event.insert_into(result);
                }
                proof {
                    let expected = self.transform_playback(id, t);
                    assert forall|e: LoopEvent| #[trigger] expected.contains(e) implies
                        (on_in && e == on_event) || (off_in && e == off_event) by {
                        if e.value == value && e.pos@ == next_on@ && on_in {
                            lemma_view_determines(e.pos, next_on);
                        } else {
                            lemma_view_determines(e.pos, next_off);
                        }
                    }
                    assert(result@.to_set() =~= before + expected);
                }
            },
            _ => {
                assert(result@.to_set() =~= old(result)@.to_set() + self.transform_playback(id, t));
            },
        }
    }

    /// The events to send in the current clock window, in order: what every trigger with an
    /// output transform plays.
    pub fn get_events(&self) -> (r: Vec<LoopEvent>)
        requires
            self.playable(),
        ensures
            sorted_events(r@),
            r@.to_set() == self.playback(),
    {
        broadcast use vstd::std_specs::hash::group_hash_axioms;
        let mut result: Vec<LoopEvent> = Vec::new();
        let ghost all = self.out_transforms.keys().remaining();
        for id in it: self.out_transforms.keys()
            invariant
                it.seq() == all,
                all.unref().to_set() == self.out_transforms@.dom(),
                all.unref().no_duplicates(),
                self.playable(),
                sorted_events(result@),
                result@.to_set() == Set::new(|e: LoopEvent| all.unref().subrange(0, it.index() as int).contains(e.id)
                    && self.out_transforms@.contains_key(e.id)
                    && self.transform_playback(e.id, self.out_transforms@[e.id]).contains(e)),
        {
            let ghost done = all.unref().subrange(0, it.index() as int);
            let k = *id;
            assert(all.unref()[it.index() as int] == k);
            assert(all.unref().to_set().contains(k));
            let t = *self.out_transforms.get(&k).unwrap();
            let ghost before = result@.to_set();
            self.play_transform(k, t, &mut result);
            proof {
                self.lemma_playback_ids(k, t);
                let next = all.unref().subrange(0, it.index() + 1);
                assert(next =~= done.push(k));
                let target = Set::new(|e: LoopEvent| next.contains(e.id)
                    && self.out_transforms@.contains_key(e.id)
                    && self.transform_playback(e.id, self.out_transforms@[e.id]).contains(e));
                assert forall|e: LoopEvent| #[trigger] target.contains(e) implies result@.to_set().contains(e) by {
                    let i = choose|i: int| 0 <= i < next.len() && next[i] == e.id;
                    if i < done.len() {
                        assert(done[i] == e.id);
                        assert(done.contains(e.id));
                        assert(before.contains(e));
                    }
                }
                assert forall|e: LoopEvent| #[trigger] result@.to_set().contains(e) implies target.contains(e) by {
                    if before.contains(e) {
                        let i = choose|i: int| 0 <= i < done.len() && done[i] == e.id;
                        assert(next[i] == e.id);
                    } else {
                        assert(self.transform_playback(k, t).contains(e));
                        assert(next[done.len() as int] == k);
                    }
                }
                assert(target =~= result@.to_set());
            }
        }
        proof {
            assert(all.unref().subrange(0, all.len() as int) =~= all.unref());
            assert forall|e: LoopEvent| #[trigger] self.playback().contains(e) implies result@.to_set().contains(e) by {
                assert(self.out_transforms@.dom().contains(e.id));
            }
            assert(result@.to_set() =~= self.playback());
        }
        result
    }
}

impl LoopGrid {
    /// What taking the last loop again with `length` makes of the grid (see `reloop`).
    pub open spec fn relooped(&self, length: MidiTime, after: LoopGrid) -> bool {
        &&& (match self.last_loop_snapshot {
                None => after.loop_state@ == self.loop_state@,
                Some(s) => {
                    let pos = time_at(self.loop_from@ + s.loop_length@ - length@);
                    let undone = model_undo(self.loop_state@);
                    let base = current(undone);
                    let ids = reloop_ids(s, pos@);
                    exists|c: LoopCollection| #![trigger model_set(undone, c)] {
                        &&& c.length == base.length
                        &&& c.transforms@ == Map::new(
                            |k: u32| base.transforms@.contains_key(k) || ids.contains(k),
                            |k: u32| if ids.contains(k) { self.captured(k, pos, length) } else { base.transforms@[k] },
                        )
                        &&& after.loop_state@ == model_set(undone, c)
                    }
                },
            })
        &&& (after == (LoopGrid { loop_state: after.loop_state, ..*self }))
    }

    /// Takes the last loop again with another length, ending where it ended: undoes it and
    /// sets a loop that captures, from the new start, the triggers the last loop captured
    /// and those that changed after the new start. Without a finished loop nothing changes.
    pub fn reloop(&mut self, length: MidiTime)
        requires
            old(self).well_formed(),
            old(self).loop_state@.undos.len() + old(self).loop_state@.redos.len() + 1 < crate::loop_state::HISTORY_LIMIT,
            old(self).last_loop_snapshot matches Some(s) ==> {
                &&& fits(s.loop_length@ - length@)
                &&& fits(old(self).loop_from@ + s.loop_length@ - length@)
                &&& fits(old(self).loop_from@ + s.loop_length@)
            },
        ensures
            final(self).well_formed(),
            old(self).relooped(length, *final(self)),
    {
        broadcast use vstd::std_specs::hash::group_hash_axioms;
        let mut taken: Option<LoopSnapshot> = None;
        std::mem::swap(&mut taken, &mut self.last_loop_snapshot);
        match taken {
            None => {
                self.last_loop_snapshot = None;
            },
            Some(snapshot) => {
                let offset = snapshot.loop_length.minus(length);
                let pos = self.loop_from.plus(offset);
                proof {
                    lemma_time_at(pos@, pos);
                }
                let mut ids: HashSet<u32> = HashSet::new();
                let recorded = set_members(&snapshot.recording_ids);
                let mut i: usize = 0;
                while i < recorded.len()
                    invariant
                        0 <= i <= recorded@.len(),
                        ids@ == recorded@.take(i as int).to_set(),
                    decreases recorded@.len() - i,
                {
                    ids.insert(recorded[i]);
                    proof {
                        let prev = recorded@.take(i as int);
                        let next = recorded@.take(i + 1);
                        assert(next == prev.push(recorded@[i as int]));
                        assert forall|k: u32| next.contains(k) <==> (prev.contains(k) || k == recorded@[i as int]) by {
                            if next.contains(k) && k != recorded@[i as int] {
                                let j = choose|j: int| 0 <= j < next.len() && next[j] == k;
                                assert(prev[j] == k);
                            }
                            if prev.contains(k) {
                                let j = choose|j: int| 0 <= j < prev.len() && prev[j] == k;
                                assert(next[j] == k);
                            }
                            if k == recorded@[i as int] {
                                assert(next[i as int] == k);
                            }
                        }
                        assert(next.to_set() =~= prev.to_set().insert(recorded@[i as int]));
                    }
                    i = i + 1;
                }
                proof {
                    assert(recorded@.take(recorded@.len() as int) == recorded@);
                }
                let ghost changes = snapshot.last_changed_triggers.iter().remaining();
                let ghost changed_map = snapshot.last_changed_triggers@;
                for entry in it: snapshot.last_changed_triggers.iter()
                    invariant
                        it.seq() == changes,
                        changed_map == snapshot.last_changed_triggers@,
                        forall|j: int| 0 <= j < changes.len() ==> changed_map.contains_key(*changes[j].0)
                            && changed_map[*changes[j].0] == *changes[j].1,
                        forall|k: u32| #[trigger] changed_map.contains_key(k) ==> changes.contains((&k, &changed_map[k])),
                        ids@ == snapshot.recording_ids@ + Set::new(|k: u32| exists|j: int| 0 <= j < it.index()
                            && *changes[j].0 == k && (*changes[j].1)@ > pos@),
                {
                    let (key, last_change) = entry;
                    let ghost before = ids@;
                    if pos.is_before(*last_change) {
                        ids.insert(*key);
                    }
                    proof {
                        let done = Set::new(|k: u32| exists|j: int| 0 <= j < it.index() + 1
                            && *changes[j].0 == k && (*changes[j].1)@ > pos@);
                        let prev = Set::new(|k: u32| exists|j: int| 0 <= j < it.index()
                            && *changes[j].0 == k && (*changes[j].1)@ > pos@);
                        assert(*changes[it.index() as int].0 == *key);
                        assert forall|k: u32| #[trigger] done.contains(k) implies ids@.contains(k) by {
                            let j = choose|j: int| 0 <= j < it.index() + 1 && *changes[j].0 == k && (*changes[j].1)@ > pos@;
                            if j < it.index() {
                                assert(prev.contains(k));
                            }
                        }
                        assert forall|k: u32| #[trigger] ids@.contains(k) implies snapshot.recording_ids@.contains(k) || done.contains(k) by {
                            if before.contains(k) && !snapshot.recording_ids@.contains(k) {
                                assert(prev.contains(k));
                                let j = choose|j: int| 0 <= j < it.index() && *changes[j].0 == k && (*changes[j].1)@ > pos@;
                                assert(done.contains(k));
                            }
                        }
                        assert(ids@ =~= snapshot.recording_ids@ + done);
                    }
                }
                proof {
                    let found = Set::new(|k: u32| exists|j: int| 0 <= j < changes.len()
                        && *changes[j].0 == k && (*changes[j].1)@ > pos@);
                    let wanted = Set::new(|k: u32| snapshot.last_changed_triggers@.contains_key(k)
                        && snapshot.last_changed_triggers@[k]@ > pos@);
                    assert forall|k: u32| #[trigger] wanted.contains(k) implies found.contains(k) by {
                        assert(changes.contains((&k, &changed_map[k])));
                        let j = choose|j: int| 0 <= j < changes.len() && changes[j] == (&k, &changed_map[k]);
                        assert(*changes[j].0 == k);
                    }
                    assert(found =~= wanted);
                    assert(ids@ =~= reloop_ids(snapshot, pos@));
                }
                let ghost g1 = *self;
                self.loop_state.undo();
                let mut current_loop = self.loop_state.get().clone();
                let ghost base = current(self.loop_state@);
                let members = set_members(&ids);
                let ghost rids = ids@;
                let mut m: usize = 0;
                while m < members.len()
                    invariant
                        0 <= m <= members@.len(),
                        members@.to_set() == rids,
                        members@.no_duplicates(),
                        *self == (LoopGrid { loop_state: self.loop_state, ..g1 }),
                        g1.recorder == old(self).recorder,
                        self.well_formed(),
                        current(self.loop_state@) == base,
                        current_loop.length == base.length,
                        fits(pos@ + length@),
                        current_loop.transforms@ == Map::new(
                            |k: u32| base.transforms@.contains_key(k) || members@.take(m as int).contains(k),
                            |k: u32| if members@.take(m as int).contains(k) { old(self).captured(k, pos, length) } else { base.transforms@[k] },
                        ),
                    decreases members@.len() - m,
                {
                    let id = members[m];
                    let t = self.capture_transform(id, pos, length);
                    current_loop.transforms.insert(id, t);
                    proof {
                        let next = members@.take(m + 1);
                        assert(next == members@.take(m as int).push(id));
                        assert forall|k: u32| #[trigger] next.contains(k) <==> (members@.take(m as int).contains(k) || k == id) by {
                            if next.contains(k) && k != id {
                                let j = choose|j: int| 0 <= j < next.len() && next[j] == k;
                                assert(members@.take(m as int)[j] == k);
                            }
                            if members@.take(m as int).contains(k) {
                                let j = choose|j: int| 0 <= j < m && members@.take(m as int)[j] == k;
                                assert(next[j] == k);
                            }
                            if k == id {
                                assert(next[m as int] == k);
                            }
                        }
                        assert(current_loop.transforms@ =~= Map::new(
                            |k: u32| base.transforms@.contains_key(k) || next.contains(k),
                            |k: u32| if next.contains(k) { old(self).captured(k, pos, length) } else { base.transforms@[k] },
                        ));
                    }
                    m = m + 1;
                }
                proof {
                    assert(members@.take(members@.len() as int) == members@);
                    assert forall|k: u32| members@.contains(k) <==> rids.contains(k) by {
                        if members@.contains(k) {
                            assert(members@.to_set().contains(k));
                        }
                    }
                }
                let ghost c = current_loop;
                let ghost undone = self.loop_state@;
                self.loop_state.set(current_loop);
                self.last_loop_snapshot = Some(snapshot);
                proof {
                    assert(c.transforms@ =~= Map::new(
                        |k: u32| base.transforms@.contains_key(k) || rids.contains(k),
                        |k: u32| if rids.contains(k) { old(self).captured(k, pos, length) } else { base.transforms@[k] },
                    ));
                    assert(self.loop_state@ == model_set(undone, c));
                }
            },
        }
    }
}

impl LoopGrid {
    /// Whether trigger `id` is being recorded for a loop from `from`: it changed after
    /// `from`, is held down, has an override, or is selected.
    pub open spec fn recording_id(&self, id: u32, from: MidiTime) -> bool {
        ||| (self.last_changed_triggers@.contains_key(id) && self.last_changed_triggers@[id]@ > from@)
        ||| (self.input_values@.contains_key(id) && self.input_values@[id] is On)
        ||| (self.override_values@.contains_key(id) && self.override_values@[id] != LoopTransform::Empty)
        ||| self.selection@.contains(id)
    }

    /// Whether closing a loop from `from` takes trigger `id` into it: a grid trigger that
    /// is being recorded, or that plays while selected (or while select is held).
    pub open spec fn looped_id(&self, id: u32, from: MidiTime) -> bool {
        &&& id < PLAYABLE_GRID_SIZE
        &&& (self.recording_id(id, from) || ((self.select_held || self.selection@.contains(id))
            && self.active@.contains(id)))
    }

    /// Where the loop closed now starts and how long it is: held for more than 20 ticks,
    /// from the press with the held length (as quantized); else the last loop length,
    /// ending at the press.
    pub open spec fn closing_bounds(&self, held_length: MidiTime) -> (MidiTime, MidiTime) {
        if self.last_pos@ - self.loop_from@ > 20 * 256 {
            (self.loop_from, held_length)
        } else {
            (time_at(self.loop_from@ - self.loop_length@), self.loop_length)
        }
    }

    /// The transforms of the loop closed over `[from, from + length)`: the playing loop,
    /// with each looped trigger set to what it captures.
    pub open spec fn closed_transforms(&self, from: MidiTime, length: MidiTime) -> Map<u32, LoopTransform> {
        let base = current(self.loop_state@).transforms@;
        Map::new(
            |k: u32| base.contains_key(k) || self.looped_id(k, from),
            |k: u32| if self.looped_id(k, from) { self.captured(k, from, length) } else { base[k] },
        )
    }

    fn is_recording_id(&self, id: u32, from: MidiTime) -> (r: bool)
        ensures
            r == self.recording_id(id, from),
    {
        broadcast use vstd::std_specs::hash::group_hash_axioms;
        let changed = match self.last_changed_triggers.get(&id) {
            Some(at) => from.is_before(*at),
            None => false,
        };
        let held = match self.input_values.get(&id) {
            Some(value) => value.is_on(),
            None => false,
        };
        let overridden = match self.override_values.get(&id) {
            Some(LoopTransform::Empty) => false,
            Some(_) => true,
            None => false,
        };
        changed || held || overridden || self.selection.contains(&id)
    }

    /// What pressing the loop button makes of the grid (see `start_loop`).
    pub open spec fn loop_started(&self, after: LoopGrid) -> bool {
        &&& after.loop_held
        &&& after.loop_from@ == floor_ticks(self.last_pos@ + 128) * 256
        &&& after == (LoopGrid { loop_held: after.loop_held, loop_from: after.loop_from, ..*self })
    }

    /// The loop button is pressed: a loop starts at the current position, rounded to the
    /// nearest tick.
    pub fn start_loop(&mut self)
        requires
            fits(floor_ticks(old(self).last_pos@ + 128) * 256),
        ensures
            old(self).loop_started(*final(self)),
    {
        self.loop_held = true;
        self.loop_from = self.last_pos.round();
    }

    /// What releasing the loop button makes of the grid (see `end_loop`).
    pub open spec fn loop_closed(&self, held_length: MidiTime, after: LoopGrid) -> bool {
        &&& ({
            let (from, length) = self.closing_bounds(held_length);
            let t = self.closed_transforms(from, length);
            &&& after.loop_from == from
            &&& after.loop_length == length
            &&& !after.loop_held
            &&& after.selection@.is_empty()
            &&& after.last_loop_snapshot matches Some(snap) && {
                &&& snap.loop_from == from
                &&& snap.loop_length == length
                &&& snap.last_changed_triggers@ == self.last_changed_triggers@
                &&& snap.recording_ids@ == Set::new(|k: u32| k < PLAYABLE_GRID_SIZE && self.recording_id(k, from))
            }
            &&& if t.len() > 0 {
                &&& exists|c: LoopCollection| #![trigger model_set(self.loop_state@, c)] {
                    &&& c.length == length
                    &&& c.transforms@ == t
                    &&& after.loop_state@ == model_set(self.loop_state@, c)
                }
                &&& after.last_changed_triggers@.is_empty()
            } else {
                &&& after.loop_state@ == self.loop_state@
                &&& after.last_changed_triggers@ == self.last_changed_triggers@
            }
        })
        &&& after == (LoopGrid {
            loop_state: after.loop_state,
            loop_from: after.loop_from,
            loop_length: after.loop_length,
            loop_held: after.loop_held,
            selection: after.selection,
            last_loop_snapshot: after.last_loop_snapshot,
            last_changed_triggers: after.last_changed_triggers,
            ..*self
        })
    }

    /// The loop button is released: the loop closes (see `closing_bounds`), each looped
    /// trigger (see `looped_id`) gets what it captured over the loop (the range when it has
    /// events in it, else the value in force at its start, else nothing), and, when that
    /// loop holds anything, it becomes the playing loop and the record of changes is
    /// cleared. What was looped is kept for taking the loop again, and the selection is
    /// cleared. `held_length` is the held span quantized to a loop length.
    pub fn end_loop(&mut self, held_length: MidiTime)
        requires
            old(self).well_formed(),
            old(self).loop_state@.undos.len() + old(self).loop_state@.redos.len() + 1 < crate::loop_state::HISTORY_LIMIT,
            fits(old(self).last_pos@ - old(self).loop_from@),
            fits(old(self).loop_from@ - old(self).loop_length@),
            fits(old(self).loop_from@ + held_length@),
            fits(old(self).loop_from@ - old(self).loop_length@ + old(self).loop_length@),
        ensures
            final(self).well_formed(),
            old(self).loop_closed(held_length, *final(self)),
    {
        broadcast use vstd::std_specs::hash::group_hash_axioms;
        self.loop_held = false;
        let since_press = self.last_pos.minus(self.loop_from);
        let threshold = MidiTime::from_ticks(20);
        if threshold.is_before(since_press) {
            self.loop_length = held_length;
        } else {
            self.loop_from = self.loop_from.minus(self.loop_length);
        }
        proof {
            lemma_time_at(old(self).loop_from@ - old(self).loop_length@, self.loop_from);
            lemma_view_determines(self.loop_from, time_at(old(self).loop_from@ - old(self).loop_length@));
        }
        let from = self.loop_from;
        let length = self.loop_length;
        let ghost g0 = *self;
        assert(g0.closed_transforms(from, length) == old(self).closed_transforms(from, length));
        let mut new_loop = self.loop_state.get().clone();
        let ghost base = current(self.loop_state@);
        let mut recording_ids: HashSet<u32> = HashSet::new();
        let mut id: u32 = 0;
        while id < PLAYABLE_GRID_SIZE
            invariant
                *self == g0,
                g0.well_formed(),
                id <= PLAYABLE_GRID_SIZE,
                fits(from@ + length@),
                new_loop.length == base.length,
                base == current(g0.loop_state@),
                recording_ids@ == Set::new(|k: u32| k < id && g0.recording_id(k, from)),
                new_loop.transforms@ == Map::new(
                    |k: u32| base.transforms@.contains_key(k) || (k < id && g0.looped_id(k, from)),
                    |k: u32| if k < id && g0.looped_id(k, from) { g0.captured(k, from, length) } else { base.transforms@[k] },
                ),
            decreases PLAYABLE_GRID_SIZE - id,
        {
            let recording = self.is_recording_id(id, from);
            if recording {
                recording_ids.insert(id);
            }
            let selected = self.select_held || self.selection.contains(&id);
            if recording || (selected && self.active.contains(&id)) {
                let t = self.capture_transform(id, from, length);
                new_loop.transforms.insert(id, t);
            }
            proof {
                assert(recording_ids@ =~= Set::new(|k: u32| k < id + 1 && g0.recording_id(k, from)));
                assert(new_loop.transforms@ =~= Map::new(
                    |k: u32| base.transforms@.contains_key(k) || (k < id + 1 && g0.looped_id(k, from)),
                    |k: u32| if k < id + 1 && g0.looped_id(k, from) { g0.captured(k, from, length) } else { base.transforms@[k] },
                ));
            }
            id = id + 1;
        }
        proof {
            assert(new_loop.transforms@ =~= g0.closed_transforms(from, length));
            assert(recording_ids@ =~= Set::new(|k: u32| k < PLAYABLE_GRID_SIZE && g0.recording_id(k, from)));
        }
        let mut changed: HashMap<u32, MidiTime> = HashMap::new();
        std::mem::swap(&mut changed, &mut self.last_changed_triggers);
        let kept = changed.clone();
        self.last_changed_triggers = changed;
        self.last_loop_snapshot = Some(LoopSnapshot {
            loop_from: from,
            loop_length: length,
            last_changed_triggers: kept,
            recording_ids,
        });
        if new_loop.transforms.len() > 0 {
            new_loop.length = length;
            let ghost c = new_loop;
            let ghost before = self.loop_state@;
            self.loop_state.set(new_loop);
            self.last_changed_triggers = HashMap::new();
            proof {
                assert(self.loop_state@ == model_set(before, c));
                assert(c.length == length && c.transforms@ == old(self).closed_transforms(from, length));
                assert(before == old(self).loop_state@);
                assert(self.loop_state@ == model_set(old(self).loop_state@, c));
            }
        }
        self.selection = HashSet::new();
        proof {
            assert(self.selection@ =~= Set::<u32>::empty());
            assert(old(self).closing_bounds(held_length) == (from, length));
            let t = old(self).closed_transforms(from, length);
            assert(self.loop_from == from);
            assert(self.loop_length == length);
            assert(!self.loop_held);
            assert(self.last_loop_snapshot matches Some(snap) && {
                &&& snap.loop_from == from
                &&& snap.loop_length == length
                &&& snap.last_changed_triggers@ == old(self).last_changed_triggers@
                &&& snap.recording_ids@ == Set::new(|k: u32| k < PLAYABLE_GRID_SIZE && old(self).recording_id(k, from))
            });
            assert(*self == (LoopGrid {
                loop_state: self.loop_state,
                loop_from: self.loop_from,
                loop_length: self.loop_length,
                loop_held: self.loop_held,
                selection: self.selection,
                last_loop_snapshot: self.last_loop_snapshot,
                last_changed_triggers: self.last_changed_triggers,
                ..*old(self)
            }));
        }
    }
}

impl LoopGrid {
    /// Lays chunks out on the grid, in order: each grid cell a chunk covers maps to that
    /// chunk and the cell's number within it (a later chunk takes shared cells), the
    /// triggers of chunks that never suppress join `no_suppress`, those of chunks that
    /// follow only the quantisation or keep held triggers join `no_suppress_held`, and each
    /// chunk's listed straight-timing cells join `straight_timing_ids`.
    pub fn place_chunks(&mut self, chunks: &Vec<ChunkPlacement>)
        requires
            forall|i: int| 0 <= i < chunks@.len() ==> placement_fits(#[trigger] chunks@[i]),
        ensures
            final(self).mapping@ == old(self).mapping@.union_prefer_right(placed_cells(chunks@)),
            final(self).no_suppress@ == old(self).no_suppress@ + triggers_where(chunks@, |p: ChunkPlacement| never_suppressed(p)),
            final(self).no_suppress_held@ == old(self).no_suppress_held@ + triggers_where(chunks@, |p: ChunkPlacement| held_unsuppressed(p)),
            final(self).straight_timing_ids@ == old(self).straight_timing_ids@ + straight_triggers(chunks@),
            *final(self) == (LoopGrid {
                mapping: final(self).mapping,
                no_suppress: final(self).no_suppress,
                no_suppress_held: final(self).no_suppress_held,
                straight_timing_ids: final(self).straight_timing_ids,
                ..*old(self)
            }),
    {
        let mut acc = GridMapping {
            mapping: HashMap::new(),
            no_suppress: HashSet::new(),
            no_suppress_held: HashSet::new(),
            straight_timing_ids: HashSet::new(),
        };
        std::mem::swap(&mut acc.mapping, &mut self.mapping);
        std::mem::swap(&mut acc.no_suppress, &mut self.no_suppress);
        std::mem::swap(&mut acc.no_suppress_held, &mut self.no_suppress_held);
        std::mem::swap(&mut acc.straight_timing_ids, &mut self.straight_timing_ids);
        place_chunks(&mut acc, chunks);
        self.mapping = acc.mapping;
        self.no_suppress = acc.no_suppress;
        self.no_suppress_held = acc.no_suppress_held;
        self.straight_timing_ids = acc.straight_timing_ids;
    }

    /// A grid as `new` makes it, with the given chunks laid out on it (see `place_chunks`).
    pub fn with_chunks(loop_length: MidiTime, rate: MidiTime, chunks: &Vec<ChunkPlacement>) -> (r: LoopGrid)
        requires
            forall|i: int| 0 <= i < chunks@.len() ==> placement_fits(#[trigger] chunks@[i]),
        ensures
            r.well_formed(),
            r.loop_length == loop_length,
            r.rate == rate,
            r.mapping@ == placed_cells(chunks@),
            r.no_suppress@ == triggers_where(chunks@, |p: ChunkPlacement| never_suppressed(p)),
            r.no_suppress_held@ == triggers_where(chunks@, |p: ChunkPlacement| held_unsuppressed(p)),
            r.straight_timing_ids@ == straight_triggers(chunks@),
            r.chunk_repeat_modes@ == chunks@.map_values(|p: ChunkPlacement| p.repeat_mode),
            current(r.loop_state@).transforms@.is_empty(),
            r.loop_state@.undos.len() == 1,
            r.loop_state@.redos.len() == 0,
            r.recorder.well_formed(),
            r.selection@.is_empty(),
            r.override_values@.is_empty(),
            r.last_loop_snapshot is None,
    {
        let mut grid = LoopGrid::new(loop_length, rate);
        grid.place_chunks(chunks);
        let ghost g = grid;
        let mut i: usize = 0;
        while i < chunks.len()
            invariant
                i <= chunks@.len(),
                grid == (LoopGrid { chunk_repeat_modes: grid.chunk_repeat_modes, ..g }),
                grid.chunk_repeat_modes@ == chunks@.take(i as int).map_values(|p: ChunkPlacement| p.repeat_mode),
            decreases chunks@.len() - i,
        {
            grid.chunk_repeat_modes.push(chunks[i].repeat_mode);
            proof {
                assert(chunks@.take(i + 1).map_values(|p: ChunkPlacement| p.repeat_mode)
                    =~= chunks@.take(i as int).map_values(|p: ChunkPlacement| p.repeat_mode).push(chunks@[i as int].repeat_mode));
            }
            i = i + 1;
        }
        proof {
            assert(chunks@.take(chunks@.len() as int) == chunks@);
            assert(grid.mapping@ =~= placed_cells(chunks@));
            assert(grid.no_suppress@ =~= triggers_where(chunks@, |p: ChunkPlacement| never_suppressed(p)));
            assert(grid.no_suppress_held@ =~= triggers_where(chunks@, |p: ChunkPlacement| held_unsuppressed(p)));
            assert(grid.straight_timing_ids@ =~= straight_triggers(chunks@));
        }
        grid
    }

    /// The chunk behind grid trigger `id`, if a chunk covers its cell.
    pub fn chunk_index_for_id(&self, id: u32) -> (r: Option<usize>)
        ensures
            r == (if self.mapping@.contains_key(id) { Some(self.mapping@[id].chunk_index) } else { None }),
    {
        broadcast use vstd::std_specs::hash::group_hash_axioms;
        match self.mapping.get(&id) {
            Some(m) => Some(m.chunk_index),
            None => None,
        }
    }
}

/// The transform held over the selection: silence while suppressing, else a range of
/// one repeat step from where repeat was pressed while holding repeat, else nothing.
pub open spec fn selection_override_for(suppressing: bool, holding: bool, holding_at: MidiTime, rate: MidiTime) -> LoopTransform {
    if suppressing {
        LoopTransform::Value(OutputValue::Off)
    } else if holding {
        LoopTransform::Range { pos: holding_at, length: rate }
    } else {
        LoopTransform::Empty
    }
}

/// The repeat rates of the rate buttons, in fractional steps: two beats, one beat, a half,
/// a quarter, an eighth, a sixth, a third and two thirds of a beat.
pub open spec fn rate_button_fractions(id: int) -> int {
    seq![12288int, 6144, 3072, 1536, 768, 1024, 2048, 4096][id]
}

/// The repeat rate of rate button `id` (of eight).
pub fn rate_for_button(id: usize) -> (r: MidiTime)
    requires
        id < 8,
    ensures
        r@ == rate_button_fractions(id as int),
{
    let measures: [(i32, i32); 8] = [(2, 1), (1, 1), (1, 2), (1, 4), (1, 8), (1, 6), (1, 3), (2, 3)];
    proof {
        assert(measures@ =~= seq![(2i32, 1i32), (1, 1), (1, 2), (1, 4), (1, 8), (1, 6), (1, 3), (2, 3)]);
    }
    let (beats, divider) = measures[id];
    proof {
        let f = rate_button_fractions(id as int);
        if id == 0 { assert(beats * 24 * 256 / (divider as int) == f); }
        else if id == 1 { assert(beats * 24 * 256 / (divider as int) == f); }
        else if id == 2 { assert(beats * 24 * 256 / (divider as int) == f); }
        else if id == 3 { assert(beats * 24 * 256 / (divider as int) == f); }
        else if id == 4 { assert(beats * 24 * 256 / (divider as int) == f); }
        else if id == 5 { assert(beats * 24 * 256 / (divider as int) == f); }
        else if id == 6 { assert(beats * 24 * 256 / (divider as int) == f); }
        else { assert(id == 7); assert(beats == 2 && divider == 3); assert(beats * 24 * 256 / (divider as int) == 4096); }
    }
    MidiTime::from_measure(beats, divider)
}

/// The first place of `id` in a sequence (its length when absent).
pub open spec fn first_index(s: Seq<u32>, id: u32) -> int
    decreases s.len(),
{
    if s.len() == 0 {
        0
    } else if s[0] == id {
        0
    } else {
        1 + first_index(s.drop_first(), id)
    }
}

proof fn lemma_first_index(s: Seq<u32>, id: u32)
    ensures
        0 <= first_index(s, id) <= s.len(),
        s.contains(id) <==> first_index(s, id) < s.len(),
        first_index(s, id) < s.len() ==> s[first_index(s, id)] == id,
        forall|k: int| 0 <= k < first_index(s, id) ==> s[k] != id,
    decreases s.len(),
{
    if s.len() > 0 && s[0] != id {
        lemma_first_index(s.drop_first(), id);
        assert forall|k: int| 0 <= k < first_index(s, id) implies s[k] != id by {
            if k > 0 {
                assert(s[k] == s.drop_first()[k - 1]);
            }
        }
        if s.contains(id) {
            let k = choose|k: int| 0 <= k < s.len() && s[k] == id;
            assert(s.drop_first()[k - 1] == id);
        }
        if first_index(s, id) < s.len() {
            assert(s.drop_first()[first_index(s, id) - 1] == id);
        }
    } else if s.len() > 0 {
        assert(s.contains(id)) by {
            assert(s[0] == id);
        }
    }
}

/// The grid triggers in the rectangle spanned by the cells of two triggers.
pub open spec fn rectangle_ids(a: u32, b: u32) -> Set<u32> {
    let (ra, ca, rb, cb) = (a / 8, a % 8, b / 8, b % 8);
    Set::new(|x: u32| exists|row: int, col: int| {
        &&& (if ra < rb { ra as int } else { rb as int }) <= row <= (if ra < rb { rb as int } else { ra as int })
        &&& (if ca < cb { ca as int } else { cb as int }) <= col <= (if ca < cb { cb as int } else { ca as int })
        &&& x == #[trigger] (row * 8 + col)
    })
}

impl LoopGrid {
    /// The trigger mode a trigger is played with: immediately while it is kept so until
    /// released, else the mode in force.
    pub open spec fn mode_for_id(&self, id: u32) -> TriggerMode {
        if self.preserve_immediate_until_release@.contains(id) {
            TriggerMode::Immediate
        } else if self.trigger_override_held {
            if self.trigger_mode == TriggerMode::Repeat { TriggerMode::Quantized } else { TriggerMode::Repeat }
        } else {
            self.trigger_mode
        }
    }

    /// How the chunk of trigger `id` follows the repeat (`Global` for a chunk with no mode
    /// given).
    pub open spec fn repeat_mode_for_id(&self, id: u32) -> RepeatMode {
        let index = self.mapping@[id].chunk_index;
        if index < self.chunk_repeat_modes@.len() { self.chunk_repeat_modes@[index as int] } else { RepeatMode::Global }
    }

    /// The override a pad gives its trigger: a press on a mapped pad plays its velocity,
    /// as a repeat at the current rate (offset half a step when off-beat) where its chunk
    /// and the trigger mode repeat; a release, or an unmapped pad, holds nothing.
    pub open spec fn pad_override(&self, id: u32, value: OutputValue) -> LoopTransform {
        match value {
            OutputValue::On(v) => if self.mapping@.contains_key(id) {
                let mode = self.mode_for_id(id);
                let repeat = LoopTransform::Repeat {
                    rate: self.rate,
                    offset: if self.repeat_off_beat { time_at(self.rate@ / 2) } else { time_at(0) },
                    value: OutputValue::On(v),
                };
                match self.repeat_mode_for_id(id) {
                    RepeatMode::NoRepeat | RepeatMode::OnlyQuant => LoopTransform::Value(OutputValue::On(v)),
                    RepeatMode::NoCycle => if mode == TriggerMode::Repeat || mode == TriggerMode::Cycle {
                        repeat
                    } else {
                        LoopTransform::Value(OutputValue::On(v))
                    },
                    RepeatMode::Global => if mode == TriggerMode::Repeat {
                        repeat
                    } else {
                        LoopTransform::Value(OutputValue::On(v))
                    },
                }
            } else {
                LoopTransform::Empty
            },
            OutputValue::Off => LoopTransform::Empty,
        }
    }

    /// Computes `pad_override`.
    fn pad_override_exec(&self, id: u32, value: OutputValue) -> (r: LoopTransform)
        ensures
            r == self.pad_override(id, value),
    {
        broadcast use vstd::std_specs::hash::group_hash_axioms;
        match value {
            OutputValue::Off => LoopTransform::Empty,
            OutputValue::On(v) => {
                match self.mapping.get(&id) {
                    None => LoopTransform::Empty,
                    Some(mapped) => {
                        let repeat_mode = if mapped.chunk_index < self.chunk_repeat_modes.len() {
                            self.chunk_repeat_modes[mapped.chunk_index]
                        } else {
                            RepeatMode::Global
                        };
                        let mode = if self.preserve_immediate_until_release.contains(&id) {
                            TriggerMode::Immediate
                        } else {
                            self.effective_trigger_mode()
                        };
                        let offset = if self.repeat_off_beat { self.rate.half() } else { MidiTime::zero() };
                        proof {
                            lemma_time_at(offset@, offset);
                        }
                        let repeat = LoopTransform::Repeat { rate: self.rate, offset, value: OutputValue::On(v) };
                        match repeat_mode {
                            RepeatMode::NoRepeat | RepeatMode::OnlyQuant => LoopTransform::Value(OutputValue::On(v)),
                            RepeatMode::NoCycle => {
                                if mode == TriggerMode::Repeat || mode == TriggerMode::Cycle {
                                    repeat
                                } else {
                                    LoopTransform::Value(OutputValue::On(v))
                                }
                            },
                            RepeatMode::Global => {
                                if mode == TriggerMode::Repeat {
                                    repeat
                                } else {
                                    LoopTransform::Value(OutputValue::On(v))
                                }
                            },
                        }
                    },
                }
            },
        }
    }

    /// What a pad press or release makes of the grid (see `grid_input`).
    pub open spec fn pad_pressed(&self, id: u32, value: OutputValue, after: LoopGrid) -> bool {
        let held = self.currently_held_inputs@;
        let fresh = value is On && !held.contains(id);
        let new_held = if value is On {
            if held.contains(id) { held } else { held.push(id) }
        } else if held.contains(id) {
            held.remove(first_index(held, id))
        } else {
            held
        };
        &&& after.currently_held_inputs@ == new_held
        &&& after.preserve_immediate_until_release@ == (if value is Off && held.contains(id) {
            self.preserve_immediate_until_release@.remove(id)
        } else {
            self.preserve_immediate_until_release@
        })
        &&& if self.select_held && value is On {
            let toggled = if self.selection@.contains(id) { self.selection@.remove(id) } else { self.selection@.insert(id) };
            &&& after.selection@ == (if !fresh {
                self.selection@
            } else if new_held.len() == 2 {
                toggled + rectangle_ids(new_held[0], new_held[1])
            } else {
                toggled
            })
            &&& after.input_values@ == self.input_values@
            &&& after.override_values@ == self.override_values@
        } else if value is Off || fresh || (self.input_values@.contains_key(id) && self.input_values@[id] is On) {
            &&& after.selection@ == self.selection@
            &&& after.input_values@ == self.input_values@.insert(id, value)
            &&& after.override_values@ == self.override_values@.insert(id, self.pad_override(id, value))
        } else {
            &&& after.selection@ == self.selection@
            &&& after.input_values@ == self.input_values@
            &&& after.override_values@ == self.override_values@
        }
        &&& after == (LoopGrid {
            currently_held_inputs: after.currently_held_inputs,
            preserve_immediate_until_release: after.preserve_immediate_until_release,
            selection: after.selection,
            input_values: after.input_values,
            override_values: after.override_values,
            ..*self
        })
    }

    /// Selects every grid trigger in the rectangle spanned by two triggers' cells.
    fn select_rectangle(&mut self, a: u32, b: u32)
        ensures
            final(self).selection@ == old(self).selection@ + rectangle_ids(a, b),
            *final(self) == (LoopGrid { selection: final(self).selection, ..*old(self) }),
    {
        broadcast use vstd::std_specs::hash::group_hash_axioms;
        let (ra, ca, rb, cb) = (a / 8, a % 8, b / 8, b % 8);
        let from_row = if ra < rb { ra } else { rb };
        let to_row = if ra < rb { rb } else { ra };
        let from_col = if ca < cb { ca } else { cb };
        let to_col = if ca < cb { cb } else { ca };
        let ghost start = self.selection@;
        let ghost g = *self;
        let mut row = from_row;
        while row <= to_row
            invariant
                from_row <= row <= to_row + 1,
                to_row <= u32::MAX / 8,
                to_col <= 7,
                from_col <= to_col,
                from_row == (if ra < rb { ra } else { rb }),
                to_row == (if ra < rb { rb } else { ra }),
                from_col == (if ca < cb { ca } else { cb }),
                to_col == (if ca < cb { cb } else { ca }),
                ra == a / 8, rb == b / 8, ca == a % 8, cb == b % 8,
                *self == (LoopGrid { selection: self.selection, ..g }),
                g == *old(self),
                start == old(self).selection@,
                self.selection@ == start + Set::new(|x: u32| exists|r: int, c: int| {
                    &&& from_row <= r < row
                    &&& from_col <= c <= to_col
                    &&& x == #[trigger] (r * 8 + c)
                }),
            decreases to_row + 1 - row,
        {
            let mut col = from_col;
            while col <= to_col
                invariant
                    from_row <= row <= to_row,
                    to_row <= u32::MAX / 8,
                    to_col <= 7,
                    from_col <= col <= to_col + 1,
                    *self == (LoopGrid { selection: self.selection, ..g }),
                    self.selection@ == start + Set::new(|x: u32| exists|r: int, c: int| {
                        &&& ((from_row <= r < row && from_col <= c <= to_col) || (r == row && from_col <= c < col))
                        &&& x == #[trigger] (r * 8 + c)
                    }),
                decreases to_col + 1 - col,
            {
                let id = row * 8 + col;
                self.selection.insert(id);
                proof {
                    let next = Set::new(|x: u32| exists|r: int, c: int| {
                        &&& ((from_row <= r < row && from_col <= c <= to_col) || (r == row && from_col <= c < col + 1))
                        &&& x == #[trigger] (r * 8 + c)
                    });
                    assert forall|x: u32| self.selection@.contains(x) == (start + next).contains(x) by {
                        if x == id {
                            assert(next.contains(x)) by {
                                assert(x == row * 8 + col);
                            }
                        }
                        if next.contains(x) && x != id {
                            let (r, c) = choose|r: int, c: int| {
                                &&& ((from_row <= r < row && from_col <= c <= to_col) || (r == row && from_col <= c < col + 1))
                                &&& x == #[trigger] (r * 8 + c)
                            };
                            assert(!(r == row && c == col));
                        }
                    }
                    assert(self.selection@ =~= start + next);
                }
                col = col + 1;
            }
            proof {
                let next = Set::new(|x: u32| exists|r: int, c: int| {
                    &&& from_row <= r < row + 1
                    &&& from_col <= c <= to_col
                    &&& x == #[trigger] (r * 8 + c)
                });
                let cur = Set::new(|x: u32| exists|r: int, c: int| {
                    &&& ((from_row <= r < row && from_col <= c <= to_col) || (r == row && from_col <= c < col))
                    &&& x == #[trigger] (r * 8 + c)
                });
                assert(cur =~= next) by {
                    assert forall|x: u32| cur.contains(x) == next.contains(x) by {
                        if next.contains(x) {
                            let (r, c) = choose|r: int, c: int| {
                                &&& from_row <= r < row + 1
                                &&& from_col <= c <= to_col
                                &&& x == #[trigger] (r * 8 + c)
                            };
                            assert(cur.contains(x)) by {
                                assert((from_row <= r < row && from_col <= c <= to_col) || (r == row && from_col <= c < col));
                            }
                        }
                    }
                }
            }
            row = row + 1;
        }
        proof {
            let done = Set::new(|x: u32| exists|r: int, c: int| {
                &&& from_row <= r < row
                &&& from_col <= c <= to_col
                &&& x == #[trigger] (r * 8 + c)
            });
            assert(done =~= rectangle_ids(a, b)) by {
                assert forall|x: u32| done.contains(x) == rectangle_ids(a, b).contains(x) by {
                    if rectangle_ids(a, b).contains(x) {
                        let (r, c) = choose|r: int, c: int| {
                            &&& (if ra < rb { ra as int } else { rb as int }) <= r <= (if ra < rb { rb as int } else { ra as int })
                            &&& (if ca < cb { ca as int } else { cb as int }) <= c <= (if ca < cb { cb as int } else { ca as int })
                            &&& x == #[trigger] (r * 8 + c)
                        };
                        assert(from_row <= r < row && from_col <= c <= to_col);
                    }
                }
            }
        }
    }

    /// A pad of the grid is pressed (`On` with its velocity) or released. Held pads are
    /// tracked in press order; releasing a held pad ends keeping its trigger immediate. With select
    /// held a fresh press toggles the trigger's selection, and a second held pad selects
    /// the rectangle between the two. Otherwise a release, a fresh press, or a press on a
    /// trigger that is on, sets the trigger's input and its override (see `pad_override`).
    pub fn grid_input(&mut self, id: u32, value: OutputValue)
        ensures
            old(self).pad_pressed(id, value, *final(self)),
    {
        broadcast use vstd::std_specs::hash::group_hash_axioms;
        let ghost held = self.currently_held_inputs@;
        proof {
            lemma_first_index(held, id);
        }
        let mut index: usize = 0;
        while index < self.currently_held_inputs.len() && self.currently_held_inputs[index] != id
            invariant
                self.currently_held_inputs@ == held,
                0 <= index <= held.len(),
                forall|k: int| 0 <= k < index ==> held[k] != id,
                0 <= first_index(held, id) <= held.len(),
                held.contains(id) <==> first_index(held, id) < held.len(),
                first_index(held, id) < held.len() ==> held[first_index(held, id)] == id,
                forall|k: int| 0 <= k < first_index(held, id) ==> held[k] != id,
            decreases held.len() - index,
        {
            index = index + 1;
        }
        let present = index < self.currently_held_inputs.len();
        proof {
            if present {
                assert(index == first_index(held, id));
            } else {
                assert(!held.contains(id));
            }
        }
        let mut fresh = false;
        if value.is_on() {
            if !present {
                self.currently_held_inputs.push(id);
                fresh = true;
            }
        } else {
            if present {
                self.currently_held_inputs.remove(index);
                self.preserve_immediate_until_release.remove(&id);
            }
        }
        if self.select_held && value.is_on() {
            if fresh {
                if self.selection.contains(&id) {
                    self.selection.remove(&id);
                } else {
                    self.selection.insert(id);
                }
                if self.currently_held_inputs.len() == 2 {
                    let a = self.currently_held_inputs[0];
                    let b = self.currently_held_inputs[1];
                    self.select_rectangle(a, b);
                }
            }
        } else {
            let on_before = match self.input_values.get(&id) {
                Some(v) => v.is_on(),
                None => false,
            };
            if !value.is_on() || fresh || on_before {
                let t = self.pad_override_exec(id, value);
                self.input_values.insert(id, value);
                self.override_values.insert(id, t);
            }
        }
    }
}

/// A repeat played at another rate; any other transform as it is.
pub open spec fn rerated(t: LoopTransform, rate: MidiTime) -> LoopTransform {
    match t {
        LoopTransform::Repeat { offset, value, .. } => LoopTransform::Repeat { rate, offset, value },
        _ => t,
    }
}

impl LoopGrid {
    /// Whether trigger `id` holds a repeat override that follows the rate.
    pub open spec fn rerates(&self, id: u32) -> bool {
        &&& self.mapping@.contains_key(id)
        &&& self.override_values@.contains_key(id)
        &&& self.override_values@[id] is Repeat
    }

    /// The grid after its repeat overrides (and the repeats they drive) took on its rate.
    pub open spec fn rate_applied(&self, after: LoopGrid) -> bool {
        &&& after.override_values@ == Map::new(
            |k: u32| self.override_values@.contains_key(k),
            |k: u32| if self.rerates(k) { rerated(self.override_values@[k], self.rate) } else { self.override_values@[k] },
        )
        &&& after.repeat_states@ == Map::new(
            |k: u32| self.repeat_states@.contains_key(k),
            |k: u32| if self.rerates(k) {
                RepeatState { transform: rerated(self.override_values@[k], self.rate), ..self.repeat_states@[k] }
            } else {
                self.repeat_states@[k]
            },
        )
        &&& after == (LoopGrid { override_values: after.override_values, repeat_states: after.repeat_states, ..*self })
    }

    /// Gives the repeat overrides of mapped triggers, and their running repeats, the
    /// current rate.
    fn refresh_override_repeat(&mut self)
        requires
            old(self).well_formed(),
        ensures
            final(self).well_formed(),
            old(self).rate_applied(*final(self)),
    {
        broadcast use vstd::std_specs::hash::group_hash_axioms;
        let ghost g0 = *self;
        let ghost start = self.override_values@;
        let ghost states = self.repeat_states@;
        let mut keys: Vec<u32> = Vec::new();
        let ghost all = self.override_values.keys().remaining();
        for id in it: self.override_values.keys()
            invariant
                it.seq() == all,
                all.unref().to_set() == start.dom(),
                all.unref().no_duplicates(),
                keys@ == all.unref().take(it.index() as int),
        {
            keys.push(*id);
            proof {
                assert(all.unref().take(it.index() + 1) == all.unref().take(it.index() as int).push(*id));
            }
        }
        proof {
            assert(all.unref().take(all.len() as int) == all.unref());
        }
        let mut i: usize = 0;
        while i < keys.len()
            invariant
                i <= keys@.len(),
                keys@.to_set() == start.dom(),
                keys@.no_duplicates(),
                g0.well_formed(),
                start == g0.override_values@,
                states == g0.repeat_states@,
                *self == (LoopGrid { override_values: self.override_values, repeat_states: self.repeat_states, ..g0 }),
                self.override_values@.dom() == start.dom(),
                self.repeat_states@.dom() == states.dom(),
                forall|k: u32| #[trigger] self.override_values@.contains_key(k) ==> self.override_values@[k]
                    == if keys@.take(i as int).contains(k) && g0.rerates(k) { rerated(start[k], g0.rate) } else { start[k] },
                forall|k: u32| #[trigger] self.repeat_states@.contains_key(k) ==> self.repeat_states@[k]
                    == if keys@.take(i as int).contains(k) && g0.rerates(k) {
                        RepeatState { transform: rerated(start[k], g0.rate), ..states[k] }
                    } else {
                        states[k]
                    },
            decreases keys@.len() - i,
        {
            let id = keys[i];
            proof {
                assert(keys@.to_set().contains(id));
                let prev = keys@.take(i as int);
                assert(keys@.take(i + 1) == prev.push(id));
                assert(!prev.contains(id)) by {
                    if prev.contains(id) {
                        let x = choose|x: int| 0 <= x < prev.len() && prev[x] == id;
                        assert(keys@[x] == keys@[i as int]);
                    }
                }
            }
            proof {
                assert(start.contains_key(id));
                assert(self.override_values@[id] == start[id]);
                if states.contains_key(id) {
                    assert(self.repeat_states@[id] == states[id]);
                }
                assert(keys@.take(i + 1)[i as int] == id);
            }
            if self.mapping.contains_key(&id) {
                let t = *self.override_values.get(&id).unwrap();
                match t {
                    LoopTransform::Repeat { offset, value, .. } => {
                        let n = LoopTransform::Repeat { rate: self.rate, offset, value };
                        self.override_values.insert(id, n);
                        match self.repeat_states.get(&id) {
                            Some(st) => {
                                let next = RepeatState { transform: n, ..*st };
                                self.repeat_states.insert(id, next);
                            },
                            None => {},
                        }
                    },
                    _ => {},
                }
            }
            proof {
                let prev = keys@.take(i as int);
                let cur = keys@.take(i + 1);
                assert forall|k: u32| #[trigger] self.override_values@.contains_key(k) implies self.override_values@[k]
                    == if cur.contains(k) && g0.rerates(k) { rerated(start[k], g0.rate) } else { start[k] } by {
                    if k != id {
                        assert(cur.contains(k) == prev.contains(k));
                    }
                }
                assert forall|k: u32| #[trigger] self.repeat_states@.contains_key(k) implies self.repeat_states@[k]
                    == if cur.contains(k) && g0.rerates(k) {
                        RepeatState { transform: rerated(start[k], g0.rate), ..states[k] }
                    } else {
                        states[k]
                    } by {
                    if k != id {
                        assert(cur.contains(k) == prev.contains(k));
                    }
                }
            }
            i = i + 1;
        }
        proof {
            assert(keys@.take(keys@.len() as int) == keys@);
            assert forall|k: u32| #[trigger] self.override_values@.contains_key(k) implies bounded(self.override_values@[k]) by {
                assert(start.contains_key(k));
                assert(keys@.to_set().contains(k));
            }
            assert forall|k: u32| #[trigger] self.repeat_states@.contains_key(k) implies bounded(self.repeat_states@[k].transform) by {
                assert(states.contains_key(k));
                if keys@.contains(k) && g0.rerates(k) {
                    assert(start.contains_key(k));
                }
            }
            assert(self.override_values@ =~= Map::new(
                |k: u32| start.contains_key(k),
                |k: u32| if g0.rerates(k) { rerated(start[k], g0.rate) } else { start[k] },
            )) by {
                assert forall|k: u32| start.contains_key(k) implies keys@.contains(k) by {
                    assert(keys@.to_set().contains(k));
                }
            }
            assert(self.repeat_states@ =~= Map::new(
                |k: u32| states.contains_key(k),
                |k: u32| if g0.rerates(k) {
                    RepeatState { transform: rerated(start[k], g0.rate), ..states[k] }
                } else {
                    states[k]
                },
            )) by {
                assert forall|k: u32| g0.rerates(k) implies keys@.contains(k) by {
                    assert(keys@.to_set().contains(k));
                }
            }
        }
    }
}

impl LoopGrid {
    /// What a suppress, repeat or rate button sets as the selection override must be
    /// bounded, and a rate button is one of eight.
    pub open spec fn override_fits(&self, event: GridEvent) -> bool {
        match event {
            GridEvent::SuppressButton(p) => bounded(selection_override_for(p, self.holding, self.holding_at, self.rate)),
            GridEvent::RepeatButton(p) => bounded(selection_override_for(self.suppressing, p, self.last_pos, self.rate)),
            GridEvent::RateButton { id, .. } => {
                &&& id < 8
                &&& bounded(selection_override_for(self.suppressing, self.holding, self.holding_at,
                    time_at(rate_button_fractions(id as int))))
            },
            _ => true,
        }
    }

    /// What a press of the flatten button at `now_ms` makes of the grid. More than 200 ms
    /// after the last press, the triggers held under the trigger-mode override are kept
    /// immediate until released; then the grid is flattened when that would change the
    /// loop, else the selected loops are cleared (permanent ones too), else with select held
    /// every loop is cleared and the automation reset, else the grid's own loops are
    /// cleared; and the selection is emptied. The press time is kept either way.
    pub open spec fn flatten_pressed(&self, now_ms: u64, after: LoopGrid) -> bool {
        if now_ms > self.last_flatten_press_ms + 200 {
            let kept = if self.trigger_override_held {
                self.preserve_immediate_until_release@ + self.currently_held_inputs@.to_set()
            } else {
                self.preserve_immediate_until_release@
            };
            let base = LoopGrid { preserve_immediate_until_release: after.preserve_immediate_until_release, ..*self };
            let cleared = LoopGrid {
                selection: self.selection,
                last_flatten_press_ms: self.last_flatten_press_ms,
                reset_automation: self.reset_automation,
                ..after
            };
            &&& after.preserve_immediate_until_release@ == kept
            &&& after.selection@.is_empty()
            &&& after.last_flatten_press_ms == now_ms
            &&& if self.flatten_pending(current(self.loop_state@)) {
                base.flattened(cleared) && after.reset_automation == self.reset_automation
            } else if self.selection@.len() > 0 {
                base.loops_cleared(TransformTarget::Selected, true, cleared) && after.reset_automation == self.reset_automation
            } else if self.select_held {
                base.loops_cleared(TransformTarget::All, false, cleared) && after.reset_automation
            } else {
                base.loops_cleared(TransformTarget::Main, false, cleared) && after.reset_automation == self.reset_automation
            }
        } else {
            after == (LoopGrid { last_flatten_press_ms: now_ms, ..*self })
        }
    }

    /// The flatten button is pressed at `now_ms` (see `flatten_pressed`).
    fn flatten_press(&mut self, now_ms: u64)
        requires
            old(self).well_formed(),
            old(self).loop_state@.undos.len() + old(self).loop_state@.redos.len() + 1 < crate::loop_state::HISTORY_LIMIT,
        ensures
            final(self).well_formed(),
            old(self).flatten_pressed(now_ms, *final(self)),
    {
        broadcast use vstd::std_specs::hash::group_hash_axioms;
        if now_ms > self.last_flatten_press_ms && now_ms - self.last_flatten_press_ms > 200 {
            let ghost g0 = *self;
            if self.trigger_override_held {
                let mut j: usize = 0;
                while j < self.currently_held_inputs.len()
                    invariant
                        j <= self.currently_held_inputs@.len(),
                        *self == (LoopGrid { preserve_immediate_until_release: self.preserve_immediate_until_release, ..g0 }),
                        self.preserve_immediate_until_release@ == g0.preserve_immediate_until_release@
                            + self.currently_held_inputs@.take(j as int).to_set(),
                    decreases self.currently_held_inputs@.len() - j,
                {
                    let id = self.currently_held_inputs[j];
                    self.preserve_immediate_until_release.insert(id);
                    proof {
                        let held = self.currently_held_inputs@;
                        let before = held.take(j as int);
                        assert(held.take(j + 1) == before.push(id));
                        assert forall|x: u32| before.push(id).contains(x) <==> (before.contains(x) || x == id) by {
                            if before.push(id).contains(x) && x != id {
                                let k = choose|k: int| 0 <= k < before.push(id).len() && before.push(id)[k] == x;
                                assert(before[k] == x);
                            }
                            if before.contains(x) {
                                let k = choose|k: int| 0 <= k < before.len() && before[k] == x;
                                assert(before.push(id)[k] == x);
                            }
                            if x == id {
                                assert(before.push(id)[before.len() as int] == x);
                            }
                        }
                        assert(self.preserve_immediate_until_release@ =~= g0.preserve_immediate_until_release@
                            + held.take(j + 1).to_set());
                    }
                    j = j + 1;
                }
                proof {
                    let held = self.currently_held_inputs@;
                    assert(held.take(held.len() as int) == held);
                }
            }
            let ghost base = *self;
            if self.should_flatten() {
                self.flatten();
            } else if self.selection.len() > 0 {
                self.clear_loops(TransformTarget::Selected, true);
            } else if self.select_held {
                self.clear_loops(TransformTarget::All, false);
                self.reset_automation = true;
            } else {
                self.clear_loops(TransformTarget::Main, false);
            }
            self.selection = HashSet::new();
            proof {
                assert(base == (LoopGrid { preserve_immediate_until_release: self.preserve_immediate_until_release, ..g0 }));
            }
        }
        self.last_flatten_press_ms = now_ms;
    }

    /// Sets the repeat rate: the selection override and the repeat overrides follow it.
    fn set_rate(&mut self, rate: MidiTime)
        requires
            old(self).well_formed(),
            bounded(selection_override_for(old(self).suppressing, old(self).holding, old(self).holding_at, rate)),
        ensures
            final(self).well_formed(),
            (LoopGrid {
                rate,
                selection_override: selection_override_for(old(self).suppressing, old(self).holding, old(self).holding_at, rate),
                ..*old(self)
            }).rate_applied(*final(self)),
    {
        self.rate = rate;
        self.selection_override = selection_override_for_exec(self.suppressing, self.holding, self.holding_at, rate);
        self.refresh_override_repeat();
    }
}

/// Computes `selection_override_for`.
fn selection_override_for_exec(suppressing: bool, holding: bool, holding_at: MidiTime, rate: MidiTime) -> (r: LoopTransform)
    ensures
        r == selection_override_for(suppressing, holding, holding_at, rate),
{
    if suppressing {
        LoopTransform::Value(OutputValue::Off)
    } else if holding {
        LoopTransform::Range { pos: holding_at, length: rate }
    } else {
        LoopTransform::Empty
    }
}

/// The ids of the events, in order, that press a trigger of chunk `c`.
pub open spec fn chunk_presses(mapping: Map<u32, MidiMap>, events: Seq<LoopEvent>, c: usize) -> Seq<u32>
    decreases events.len(),
{
    if events.len() == 0 {
        Seq::empty()
    } else {
        let rest = chunk_presses(mapping, events.drop_last(), c);
        let e = events.last();
        if mapping.contains_key(e.id) && mapping[e.id].chunk_index == c && e.value is On { rest.push(e.id) } else { rest }
    }
}

/// A chunk's recent triggers after it played `ids` in turn, eight kept.
pub open spec fn played_after(recent: Seq<u32>, ids: Seq<u32>) -> Seq<u32>
    decreases ids.len(),
{
    if ids.len() == 0 {
        recent
    } else {
        let before = played_after(recent, ids.drop_last());
        if before.len() < HISTORY_LENGTH { before.push(ids.last()) } else { before.drop_first().push(ids.last()) }
    }
}

impl LoopGrid {
    /// Notes the scheduled events that press a trigger of a chunk in that chunk's recent
    /// triggers, in order.
    pub fn record_triggers(&mut self, events: &Vec<LoopEvent>)
        requires
            old(self).last_triggered.well_formed(),
        ensures
            final(self).last_triggered.well_formed(),
            forall|c: usize| #[trigger] final(self).last_triggered.recent(c)
                == played_after(old(self).last_triggered.recent(c), chunk_presses(old(self).mapping@, events@, c)),
            *final(self) == (LoopGrid { last_triggered: final(self).last_triggered, ..*old(self) }),
    {
        broadcast use vstd::std_specs::hash::group_hash_axioms;
        let ghost g0 = *self;
        let mut i: usize = 0;
        while i < events.len()
            invariant
                i <= events@.len(),
                self.last_triggered.well_formed(),
                *self == (LoopGrid { last_triggered: self.last_triggered, ..g0 }),
                forall|c: usize| #[trigger] self.last_triggered.recent(c)
                    == played_after(g0.last_triggered.recent(c), chunk_presses(g0.mapping@, events@.take(i as int), c)),
            decreases events@.len() - i,
        {
            let e = events[i];
            proof {
                assert(events@.take(i + 1).drop_last() == events@.take(i as int));
                assert(events@.take(i + 1).last() == e);
            }
            let ghost before = self.last_triggered;
            if e.value.is_on() {
                match self.mapping.get(&e.id) {
                    Some(m) => {
                        self.last_triggered.record(m.chunk_index, e.id);
                        proof {
                            assert forall|c: usize| #[trigger] self.last_triggered.recent(c)
                                == played_after(g0.last_triggered.recent(c), chunk_presses(g0.mapping@, events@.take(i + 1), c)) by {
                                if c != m.chunk_index {
                                    assert(self.last_triggered.recent(c) == before.recent(c));
                                } else {
                                    let ids = chunk_presses(g0.mapping@, events@.take(i + 1), c);
                                    assert(ids.drop_last() == chunk_presses(g0.mapping@, events@.take(i as int), c));
                                }
                            }
                        }
                    },
                    None => {},
                }
            }
            i = i + 1;
        }
        proof {
            assert(events@.take(events@.len() as int) == events@);
        }
    }

    /// How often the chunk behind trigger `id` played the chunk's own id of that trigger
    /// among its recent triggers (0 for a trigger no chunk covers): the rank by which
    /// percussion triggers of one chunk are scheduled.
    pub fn trigger_rank(&self, id: u32) -> (r: u32)
        requires
            self.last_triggered.well_formed(),
        ensures
            r == (if self.mapping@.contains_key(id) {
                occurrences(self.last_triggered.recent(self.mapping@[id].chunk_index), self.mapping@[id].id)
            } else {
                0
            }),
    {
        broadcast use vstd::std_specs::hash::group_hash_axioms;
        match self.mapping.get(&id) {
            Some(m) => self.last_triggered.rank(m.chunk_index, m.id),
            None => 0,
        }
    }
}

/// Computes `fits`.
fn fits_exec(f: i64) -> (r: bool)
    ensures
        r == fits(f as int),
{
    -2147483648i64 * 256 <= f && f < 2147483648i64 * 256
}

impl LoopGrid {
    /// Whether `grid_input_event` can take an input: the history has room for one more
    /// loop and the times the input works with stay representable.
    pub fn accepts_input(&self, event: GridEvent, held_length: MidiTime) -> (r: bool)
        requires
            self.well_formed(),
        ensures
            r == {
                &&& self.loop_state@.undos.len() + self.loop_state@.redos.len() + 1 < crate::loop_state::HISTORY_LIMIT
                &&& (event == GridEvent::LoopButton(true) ==> fits(floor_ticks(self.last_pos@ + 128) * 256))
                &&& (event == GridEvent::LoopButton(false) ==> {
                    &&& fits(self.last_pos@ - self.loop_from@)
                    &&& fits(self.loop_from@ - self.loop_length@)
                    &&& fits(self.loop_from@ + held_length@)
                    &&& fits(self.loop_from@ - self.loop_length@ + self.loop_length@)
                })
                &&& (event == GridEvent::RedoButton(true) && self.select_held ==> quarter_beats(self.loop_length@) < 0x0800_0000)
                &&& self.length_press_fits(event)
                &&& self.override_fits(event)
            },
    {
        let pos = self.last_pos.fractions();
        let from = self.loop_from.fractions();
        let length = self.loop_length.fractions();
        let held = held_length.fractions();
        proof {
            crate::midi_time::lemma_view_fits(self.last_pos);
            crate::midi_time::lemma_view_fits(self.loop_from);
            crate::midi_time::lemma_view_fits(self.loop_length);
            crate::midi_time::lemma_view_fits(held_length);
        }
        if self.loop_state.history_len() >= crate::loop_state::HISTORY_LIMIT - 1 {
            return false;
        }
        match event {
            GridEvent::LoopButton(true) => {
                let shifted = pos + 128;
                let floored = if shifted >= 0 { shifted / 256 } else { -((-shifted + 255) / 256) };
                proof {
                    let d = shifted as int;
                    if d < 0 {
                        assert(floored as int == d / 256) by (nonlinear_arith)
                            requires
                                d < 0,
                                floored as int == -((-d + 255) / 256),
                        {
                        }
                    }
                }
                fits_exec(floored * 256)
            },
            GridEvent::LoopButton(false) => {
                fits_exec(pos - from) && fits_exec(from - length) && fits_exec(from + held) && fits_exec(from - length + length)
            },
            GridEvent::RedoButton(true) => !self.select_held || quarter_beats_of(self.loop_length) < 0x0800_0000,
            GridEvent::LengthButton { id, pressed } => {
                if pressed && self.select_held {
                    match &self.last_loop_snapshot {
                        Some(s) => {
                            let button = length_for_button(id);
                            let beats = button.fractions();
                            let kept = s.loop_length.fractions();
                            proof {
                                crate::midi_time::lemma_view_fits(s.loop_length);
                                crate::midi_time::lemma_view_fits(button);
                            }
                            fits_exec(kept - beats) && fits_exec(from + kept - beats) && fits_exec(from + kept)
                        },
                        None => true,
                    }
                } else {
                    true
                }
            },
            GridEvent::SuppressButton(p) => {
                bounded_exec(selection_override_for_exec(p, self.holding, self.holding_at, self.rate))
            },
            GridEvent::RepeatButton(p) => {
                bounded_exec(selection_override_for_exec(self.suppressing, p, self.last_pos, self.rate))
            },
            GridEvent::RateButton { id, .. } => {
                if id < 8 {
                    let rate = rate_for_button(id);
                    proof {
                        lemma_time_at(rate@, rate);
                    }
                    bounded_exec(selection_override_for_exec(self.suppressing, self.holding, self.holding_at, rate))
                } else {
                    false
                }
            },
            _ => true,
        }
    }
}

/// Computes `bounded`.
fn bounded_exec(t: LoopTransform) -> (r: bool)
    ensures
        r == bounded(t),
{
    match t {
        LoopTransform::Range { pos, length } => {
            let p = pos.fractions() as i128;
            let l = length.fractions() as i128;
            let span: i128 = 0x10_0000_0000;
            let min: i128 = -2147483648i128 * 256;
            let max: i128 = 2147483648i128 * 256;
            0 < l && l <= span && min + span <= p && p + 2 * span < max
        },
        _ => true,
    }
}

impl LoopGrid {
    /// How often the chunk behind trigger `id` recently played the trigger's own id (see
    /// `trigger_rank`).
    pub open spec fn rank_of(&self, id: u32) -> int {
        if self.mapping@.contains_key(id) {
            occurrences(self.last_triggered.recent(self.mapping@[id].chunk_index), self.mapping@[id].id) as int
        } else {
            0
        }
    }

    /// Whether event `a` is scheduled before event `b`: of two events on chunks, the
    /// earlier defined chunk first, and within a percussion chunk (`percussion`, by chunk)
    /// the more often played trigger first; of others, the lower trigger id first.
    pub open spec fn scheduled_before(&self, percussion: Seq<bool>, a: LoopEvent, b: LoopEvent) -> bool {
        if self.mapping@.contains_key(a.id) && self.mapping@.contains_key(b.id) {
            let ca = self.mapping@[a.id].chunk_index;
            let cb = self.mapping@[b.id].chunk_index;
            if ca == cb && ca < percussion.len() && percussion[ca as int] {
                self.rank_of(b.id) < self.rank_of(a.id)
            } else {
                ca < cb
            }
        } else {
            a.id < b.id
        }
    }

    /// Computes `scheduled_before`.
    fn scheduled_before_exec(&self, percussion: &Vec<bool>, a: LoopEvent, b: LoopEvent) -> (r: bool)
        requires
            self.last_triggered.well_formed(),
        ensures
            r == self.scheduled_before(percussion@, a, b),
    {
        broadcast use vstd::std_specs::hash::group_hash_axioms;
        match (self.mapping.get(&a.id), self.mapping.get(&b.id)) {
            (Some(ma), Some(mb)) => {
                if ma.chunk_index == mb.chunk_index && ma.chunk_index < percussion.len() && percussion[ma.chunk_index] {
                    self.trigger_rank(b.id) < self.trigger_rank(a.id)
                } else {
                    ma.chunk_index < mb.chunk_index
                }
            },
            _ => a.id < b.id,
        }
    }

    /// The events in the order they are scheduled (see `scheduled_before`): the same
    /// events, none right after one it is scheduled before.
    pub fn schedule_order(&self, events: &Vec<LoopEvent>, percussion: &Vec<bool>) -> (r: Vec<LoopEvent>)
        requires
            self.last_triggered.well_formed(),
        ensures
            r@.to_multiset() == events@.to_multiset(),
            self.schedule_sorted(percussion@, r@),
    {
        let mut r: Vec<LoopEvent> = Vec::new();
        proof {
            assert(r@ =~= events@.take(0));
        }
        let mut k: usize = 0;
        while k < events.len()
            invariant
                k <= events@.len(),
                self.last_triggered.well_formed(),
                r@.to_multiset() == events@.take(k as int).to_multiset(),
                self.schedule_sorted(percussion@, r@),
            decreases events@.len() - k,
        {
            let x = events[k];
            let mut j: usize = r.len();
            while j > 0 && self.scheduled_before_exec(percussion, x, r[j - 1])
                invariant
                    j <= r@.len(),
                    self.last_triggered.well_formed(),
                    forall|m: int| j <= m < r@.len() ==> self.scheduled_before(percussion@, x, #[trigger] r@[m]),
                decreases j,
            {
                j = j - 1;
            }
            let ghost before = r@;
            r.insert(j, x);
            proof {
                assert(events@.take(k + 1) == events@.take(k as int).push(x));
                vstd::seq_lib::to_multiset_build(events@.take(k as int), x);
                vstd::seq_lib::to_multiset_insert(before, j as int, x);
                self.lemma_insert_keeps_order(percussion@, before, j as int, x);
            }
            k = k + 1;
        }
        proof {
            assert(events@.take(events@.len() as int) == events@);
        }
        r
    }

    /// Whether no event of a sequence comes right after one it is scheduled before.
    pub open spec fn schedule_sorted(&self, percussion: Seq<bool>, s: Seq<LoopEvent>) -> bool {
        forall|i: int| 1 <= i < s.len() ==> !self.scheduled_before(percussion, #[trigger] s[i], s[i - 1])
    }

    /// Inserting an event after the last one it does not go before, and before all the
    /// ones it goes before, keeps a sequence in schedule order.
    proof fn lemma_insert_keeps_order(&self, percussion: Seq<bool>, s: Seq<LoopEvent>, j: int, x: LoopEvent)
        requires
            self.schedule_sorted(percussion, s),
            0 <= j <= s.len(),
            j > 0 ==> !self.scheduled_before(percussion, x, s[j - 1]),
            forall|m: int| j <= m < s.len() ==> self.scheduled_before(percussion, x, #[trigger] s[m]),
        ensures
            self.schedule_sorted(percussion, s.insert(j, x)),
    {
        let t = s.insert(j, x);
        assert forall|i: int| 1 <= i < t.len() implies !self.scheduled_before(percussion, #[trigger] t[i], t[i - 1]) by {
            if i < j {
                assert(t[i] == s[i] && t[i - 1] == s[i - 1]);
            } else if i == j {
                assert(t[i] == x && t[i - 1] == s[i - 1]);
            } else if i == j + 1 {
                assert(t[i] == s[j] && t[i - 1] == x);
                assert(self.scheduled_before(percussion, x, s[j]));
                self.lemma_scheduled_before_asymmetric(percussion, x, s[j]);
            } else {
                assert(t[i] == s[i - 1] && t[i - 1] == s[i - 2]);
                assert(!self.scheduled_before(percussion, s[i - 1], s[i - 2]));
            }
        }
    }

    /// No event is scheduled both before and after another.
    proof fn lemma_scheduled_before_asymmetric(&self, percussion: Seq<bool>, a: LoopEvent, b: LoopEvent)
        ensures
            self.scheduled_before(percussion, a, b) ==> !self.scheduled_before(percussion, b, a),
    {
    }
}

/// A press on a pad that repeats plays its velocity as a repeat at the grid's rate: on the
/// beat, or half a step later when the rate was chosen off the beat. A release holds
/// nothing.
pub proof fn law_pad_repeats_start_on_or_off_the_beat(g: LoopGrid, id: u32, velocity: u8)
    requires
        g.mapping@.contains_key(id),
        g.mode_for_id(id) == TriggerMode::Repeat,
        g.repeat_mode_for_id(id) == RepeatMode::Global || g.repeat_mode_for_id(id) == RepeatMode::NoCycle,
    ensures
        g.pad_override(id, OutputValue::On(velocity)) matches LoopTransform::Repeat { rate, offset, value } && {
            &&& rate == g.rate
            &&& value == OutputValue::On(velocity)
            &&& offset@ == (if g.repeat_off_beat { g.rate@ / 2 } else { 0 })
        },
        g.pad_override(id, OutputValue::Off) == LoopTransform::Empty,
{
    crate::midi_time::lemma_view_fits(g.rate);
    lemma_time_at(g.rate@ / 2, g.rate);
    lemma_time_at(0, g.rate);
}

/// A pad on a chunk that never repeats, or pressed in a mode that does not repeat, plays
/// its velocity as a held value; a pad no chunk covers holds nothing.
pub proof fn law_pad_values(g: LoopGrid, id: u32, velocity: u8)
    ensures
        g.mapping@.contains_key(id) && (g.repeat_mode_for_id(id) == RepeatMode::NoRepeat
            || g.repeat_mode_for_id(id) == RepeatMode::OnlyQuant) ==> g.pad_override(id, OutputValue::On(velocity))
            == LoopTransform::Value(OutputValue::On(velocity)),
        g.mapping@.contains_key(id) && g.mode_for_id(id) != TriggerMode::Repeat && g.mode_for_id(id) != TriggerMode::Cycle
            ==> g.pad_override(id, OutputValue::On(velocity)) == LoopTransform::Value(OutputValue::On(velocity)),
        !g.mapping@.contains_key(id) ==> g.pad_override(id, OutputValue::On(velocity)) == LoopTransform::Empty,
{
}

/// Suppressing silences the selection whatever else is held; holding repeat (without
/// suppressing) loops one step of the rate from where repeat was pressed; with neither
/// the selection plays on.
pub proof fn law_selection_override(holding: bool, holding_at: MidiTime, rate: MidiTime)
    ensures
        selection_override_for(true, holding, holding_at, rate) == LoopTransform::Value(OutputValue::Off),
        selection_override_for(false, true, holding_at, rate) == (LoopTransform::Range { pos: holding_at, length: rate }),
        selection_override_for(false, false, holding_at, rate) == LoopTransform::Empty,
{
}

/// The rectangle two pads span holds both pads, and every trigger in it lies between their
/// rows and between their columns.
pub proof fn law_rectangle_between_two_pads(a: u32, b: u32, x: u32)
    ensures
        rectangle_ids(a, b).contains(a),
        rectangle_ids(a, b).contains(b),
        rectangle_ids(a, b).contains(x) ==> {
            &&& (a / 8 <= x / 8 <= b / 8 || b / 8 <= x / 8 <= a / 8)
            &&& (a % 8 <= x % 8 <= b % 8 || b % 8 <= x % 8 <= a % 8)
        },
{
    assert(a == (a / 8) * 8 + a % 8);
    assert(b == (b / 8) * 8 + b % 8);
    if rectangle_ids(a, b).contains(x) {
        let (row, col) = choose|row: int, col: int| {
            &&& (if a / 8 < b / 8 { (a / 8) as int } else { (b / 8) as int }) <= row <= (if a / 8 < b / 8 { (b / 8) as int } else { (a / 8) as int })
            &&& (if a % 8 < b % 8 { (a % 8) as int } else { (b % 8) as int }) <= col <= (if a % 8 < b % 8 { (b % 8) as int } else { (a % 8) as int })
            &&& x == #[trigger] (row * 8 + col)
        };
        assert(x / 8 == row && x % 8 == col);
    }
}

/// Pressing a pad that was not held and releasing it again leaves the held pads as they
/// were, and the pad's override holds nothing (unless select was held, when nothing plays).
pub proof fn law_press_then_release(g: LoopGrid, g1: LoopGrid, g2: LoopGrid, id: u32, velocity: u8)
    requires
        !g.currently_held_inputs@.contains(id),
        g.pad_pressed(id, OutputValue::On(velocity), g1),
        g1.pad_pressed(id, OutputValue::Off, g2),
    ensures
        g2.currently_held_inputs@ == g.currently_held_inputs@,
        !g.select_held ==> g2.override_values@.contains_key(id) && g2.override_values@[id] == LoopTransform::Empty,
        !g.select_held ==> g2.input_values@.contains_key(id) && g2.input_values@[id] == OutputValue::Off,
{
    let held = g.currently_held_inputs@;
    let pushed = held.push(id);
    assert(g1.currently_held_inputs@ == pushed);
    assert(pushed[held.len() as int] == id);
    assert(pushed.contains(id));
    lemma_first_index(pushed, id);
    let k = first_index(pushed, id);
    if k < held.len() {
        assert(pushed[k] == held[k]);
        assert(held.contains(id));
    }
    assert(k == held.len());
    assert(pushed.remove(k) =~= held);
}

/// An input of the grid controller.
#[derive(Debug, Copy, Clone, PartialEq, Eq, Structural)]
pub enum GridEvent {
    Connected,
    DelayedRefresh,
    LoopButton(bool),
    FlattenButton(bool),
    UndoButton(bool),
    RedoButton(bool),
    SuppressButton(bool),
    RepeatButton(bool),
    SelectButton(bool),
    PrepareButton(bool),
    Nothing,
    LengthButton { id: usize, pressed: bool },
    RateButton { id: usize, pressed: bool },
    TriggerModeSelect { id: usize },
    SwingControl { value: u8 },
    TempoControl { value: u8 },
    BankButton { id: usize, pressed: bool },
    GridInput { id: u32, value: u8, stamp: u64 },
}

/// The bucket of `count` equal buckets that a controller value falls in.
pub open spec fn value_bucket(value: u8, count: int) -> int {
    if count == 0 { 0 } else if (value * count) / 128 < count - 1 { (value * count) / 128 } else { count - 1 }
}

/// The grid trigger of a note of the grid controller: notes 8 to 87 are triggers 0 to 79,
/// notes 96 to 127 triggers 80 to 111.
pub open spec fn grid_id_of_note(note: u8) -> Option<u32> {
    if 8 <= note <= 87 {
        Some((note - 8) as u32)
    } else if 96 <= note <= 127 {
        Some((note - 16) as u32)
    } else {
        None
    }
}

/// Whether a message of the grid controller has the bytes its kind is read from: a note
/// on needs three, a note off two, a control change on channel 2 three.
pub open spec fn grid_message_complete(m: Seq<u8>) -> bool {
    m.len() > 0 ==> {
        let kind = m[0] / 16;
        &&& kind == 9 ==> m.len() >= 3
        &&& kind == 8 ==> m.len() >= 2
        &&& (kind == 11 && m[0] % 16 == 1) ==> m.len() >= 3
    }
}

/// The input a message of the grid controller stands for. On channel 1, notes are the
/// grid's triggers (with their velocity), notes 0 to 7 the loop, flatten, undo, redo,
/// suppress, repeat, prepare and select buttons, notes 88 to 95 the length buttons; on
/// channel 2, notes 1 to 4 are the bank buttons, and controllers 1 to 4 choose the rate
/// (of eight), the trigger mode (of four), the swing and the tempo.
pub open spec fn grid_message(m: Seq<u8>, stamp: u64) -> Option<GridEvent> {
    if m.len() == 0 {
        None
    } else {
        let kind = m[0] / 16;
        let channel = m[0] % 16 + 1;
        if kind == 9 || kind == 8 {
            let note = m[1];
            let value: u8 = if kind == 8 { 0 } else { m[2] };
            let pressed = value > 0;
            if channel == 1 {
                if grid_id_of_note(note) is Some {
                    Some(GridEvent::GridInput { id: grid_id_of_note(note)->0, value, stamp })
                } else if note < 8 {
                    Some(
                        if note == 0 {
                            GridEvent::LoopButton(pressed)
                        } else if note == 1 {
                            GridEvent::FlattenButton(pressed)
                        } else if note == 2 {
                            GridEvent::UndoButton(pressed)
                        } else if note == 3 {
                            GridEvent::RedoButton(pressed)
                        } else if note == 4 {
                            GridEvent::SuppressButton(pressed)
                        } else if note == 5 {
                            GridEvent::RepeatButton(pressed)
                        } else if note == 6 {
                            GridEvent::PrepareButton(pressed)
                        } else {
                            GridEvent::SelectButton(pressed)
                        },
                    )
                } else if 88 <= note <= 95 {
                    Some(GridEvent::LengthButton { id: (note - 88) as usize, pressed })
                } else {
                    None
                }
            } else if channel == 2 && 1 <= note <= 4 {
                Some(GridEvent::BankButton { id: (note - 1) as usize, pressed })
            } else {
                None
            }
        } else if kind == 11 && channel == 2 {
            if m[1] == 1 {
                Some(GridEvent::RateButton { id: value_bucket(m[2], 8) as usize, pressed: true })
            } else if m[1] == 2 {
                Some(GridEvent::TriggerModeSelect { id: value_bucket(m[2], 4) as usize })
            } else if m[1] == 3 {
                Some(GridEvent::SwingControl { value: m[2] })
            } else if m[1] == 4 {
                Some(GridEvent::TempoControl { value: m[2] })
            } else {
                None
            }
        } else {
            None
        }
    }
}

/// Reads a message of the grid controller (see `grid_message`); the controller's
/// system-exclusive replies are not inputs and give none.
pub fn decode_grid_message(message: &[u8], stamp: u64) -> (r: Option<GridEvent>)
    requires
        grid_message_complete(message@),
    ensures
        r == grid_message(message@, stamp),
{
    if message.len() == 0 {
        return None;
    }
    let kind = message[0] / 16;
    let channel = message[0] % 16 + 1;
    if kind == 9 || kind == 8 {
        let note = message[1];
        let value: u8 = if kind == 8 { 0 } else { message[2] };
        let pressed = value > 0;
        if channel == 1 {
            if 8 <= note && note <= 87 {
                Some(GridEvent::GridInput { id: (note - 8) as u32, value, stamp })
            } else if 96 <= note && note <= 127 {
                Some(GridEvent::GridInput { id: (note - 16) as u32, value, stamp })
            } else if note < 8 {
                Some(
                    if note == 0 {
                        GridEvent::LoopButton(pressed)
                    } else if note == 1 {
                        GridEvent::FlattenButton(pressed)
                    } else if note == 2 {
                        GridEvent::UndoButton(pressed)
                    } else if note == 3 {
                        GridEvent::RedoButton(pressed)
                    } else if note == 4 {
                        GridEvent::SuppressButton(pressed)
                    } else if note == 5 {
                        GridEvent::RepeatButton(pressed)
                    } else if note == 6 {
                        GridEvent::PrepareButton(pressed)
                    } else {
                        GridEvent::SelectButton(pressed)
                    },
                )
            } else if 88 <= note && note <= 95 {
                Some(GridEvent::LengthButton { id: (note - 88) as usize, pressed })
            } else {
                None
            }
        } else if channel == 2 && 1 <= note && note <= 4 {
            Some(GridEvent::BankButton { id: (note - 1) as usize, pressed })
        } else {
            None
        }
    } else if kind == 11 && channel == 2 {
        if message[1] == 1 {
            Some(GridEvent::RateButton { id: cc_bucket(message[2], 8), pressed: true })
        } else if message[1] == 2 {
            Some(GridEvent::TriggerModeSelect { id: cc_bucket(message[2], 4) })
        } else if message[1] == 3 {
            Some(GridEvent::SwingControl { value: message[2] })
        } else if message[1] == 4 {
            Some(GridEvent::TempoControl { value: message[2] })
        } else {
            None
        }
    } else {
        None
    }
}

/// The loop lengths of the length buttons, in beats.
pub open spec fn length_button_beats(index: int) -> int {
    seq![1int, 2, 3, 4, 8, 16, 32, 64][index % 8]
}

/// The loop length of length button `id` (the buttons repeat every eight).
pub fn length_for_button(id: usize) -> (r: MidiTime)
    ensures
        r@ == length_button_beats(id as int) * 6144,
{
    let beats: [i32; 8] = [1, 2, 3, 4, 8, 16, 32, 64];
    proof {
        assert(beats@ =~= seq![1i32, 2, 3, 4, 8, 16, 32, 64]);
    }
    MidiTime::from_beats(beats[id % 8])
}

impl LoopGrid {
    /// Where the selection's search through the loop history starts: its offset, or the
    /// playing loop.
    pub open spec fn selection_start(&self) -> int {
        match self.selection_override_offset {
            Some(o) => o as int,
            None => 0,
        }
    }

    /// What stepping the selection through the loop history makes of the grid: the offset
    /// moves to the nearest loop in direction `step` that differs for a selected trigger,
    /// and stays where there is none.
    pub open spec fn selection_stepped(&self, step: int, after: LoopGrid) -> bool {
        &&& exists|r: Option<isize>| #[trigger] search_result(self.loop_state@, self.selection_start(), step, self.selection@, r)
            && after.selection_override_offset == (if r is Some { r } else { self.selection_override_offset })
        &&& after == (LoopGrid { selection_override_offset: after.selection_override_offset, ..*self })
    }

    /// Steps the selection back through the loop history.
    pub fn undo_selection(&mut self)
        requires
            history_ok(old(self).loop_state@),
        ensures
            old(self).selection_stepped(-1, *final(self)),
    {
        let start = match self.selection_override_offset {
            Some(o) => o,
            None => 0,
        };
        let found = self.loop_state.previous_index_for(start, &self.selection);
        if found.is_some() {
            self.selection_override_offset = found;
        }
        proof {
            assert(start as int == old(self).selection_start());
            assert(search_result(old(self).loop_state@, old(self).selection_start(), -1, old(self).selection@, found));
        }
    }

    /// Steps the selection forward through the loop history.
    pub fn redo_selection(&mut self)
        requires
            history_ok(old(self).loop_state@),
        ensures
            old(self).selection_stepped(1, *final(self)),
    {
        let start = match self.selection_override_offset {
            Some(o) => o,
            None => 0,
        };
        let found = self.loop_state.next_index_for(start, &self.selection);
        if found.is_some() {
            self.selection_override_offset = found;
        }
        proof {
            assert(start as int == old(self).selection_start());
            assert(search_result(old(self).loop_state@, old(self).selection_start(), 1, old(self).selection@, found));
        }
    }

    /// What an undo (`back`) or redo press makes of the grid, before the kept loop is
    /// forgotten: with select held the loop length halves (doubles); with a selection the
    /// selection steps through the history; else the loop history steps.
    pub open spec fn history_pressed(&self, back: bool, after: LoopGrid) -> bool {
        if self.select_held {
            if back { self.loop_halved(after) } else { self.loop_doubled(after) }
        } else if self.selection@.len() > 0 {
            self.selection_stepped(if back { -1 } else { 1 }, after)
        } else {
            &&& after.loop_state@ == (if back { model_undo(self.loop_state@) } else { model_redo(self.loop_state@) })
            &&& after == (LoopGrid { loop_state: after.loop_state, ..*self })
        }
    }

    /// A length press with select held takes the last loop again: its times must fit.
    pub open spec fn length_press_fits(&self, event: GridEvent) -> bool {
        match event {
            GridEvent::LengthButton { id, pressed } => pressed && self.select_held ==> match self.last_loop_snapshot {
                Some(s) => {
                    &&& fits(s.loop_length@ - length_button_beats(id as int) * 6144)
                    &&& fits(self.loop_from@ + s.loop_length@ - length_button_beats(id as int) * 6144)
                    &&& fits(self.loop_from@ + s.loop_length@)
                },
                None => true,
            },
            _ => true,
        }
    }

    /// What an input of the grid controller makes of the grid. The loop button starts and
    /// ends a loop; undo and redo step the selection or the history (with select held they
    /// halve and double the loop length) and drop the loop snapshot; select empties the
    /// selection as it is pressed; prepare holds the trigger-mode override; a length button
    /// sets the loop length (taking the last loop again with select held); flatten, see
    /// `flatten_pressed`; suppress and repeat set the selection override (repeat from the
    /// current position); a rate button sets the rate (off-beat with select held); swing and
    /// tempo keep their controller values; a bank button chooses the bank unless select is
    /// held; a pad, see `pad_pressed`. A connection, a refresh and an unknown message only
    /// redraw the lights.
    pub open spec fn grid_step(&self, event: GridEvent, held_length: MidiTime, now_ms: u64, after: LoopGrid) -> bool {
        match event {
            GridEvent::LoopButton(pressed) => if pressed {
                self.loop_started(after)
            } else {
                self.loop_closed(held_length, after)
            },
            GridEvent::UndoButton(pressed) | GridEvent::RedoButton(pressed) => if pressed {
                &&& after.last_loop_snapshot is None
                &&& self.history_pressed(event is UndoButton, LoopGrid { last_loop_snapshot: self.last_loop_snapshot, ..after })
            } else {
                after == *self
            },
            GridEvent::SelectButton(pressed) => {
                &&& after.select_held == pressed
                &&& after.selection@ == (if pressed { Set::<u32>::empty() } else { self.selection@ })
                &&& after == (LoopGrid { select_held: after.select_held, selection: after.selection, ..*self })
            },
            GridEvent::PrepareButton(pressed) => after == (LoopGrid { trigger_override_held: pressed, ..*self }),
            GridEvent::TriggerModeSelect { id } => {
                &&& (id <= 3 ==> trigger_mode_number(after.trigger_mode) == id)
                &&& (id > 3 ==> after.trigger_mode == TriggerMode::Immediate)
                &&& after == (LoopGrid { trigger_mode: after.trigger_mode, ..*self })
            },
            GridEvent::LengthButton { id, pressed } => if pressed {
                &&& after.loop_length@ == length_button_beats(id as int) * 6144
                &&& if self.select_held {
                    (LoopGrid { loop_length: after.loop_length, ..*self }).relooped(after.loop_length, after)
                } else {
                    after == (LoopGrid { loop_length: after.loop_length, ..*self })
                }
            } else {
                after == *self
            },
            GridEvent::FlattenButton(pressed) => if pressed { self.flatten_pressed(now_ms, after) } else { after == *self },
            GridEvent::SuppressButton(pressed) => after == (LoopGrid {
                suppressing: pressed,
                selection_override: selection_override_for(pressed, self.holding, self.holding_at, self.rate),
                ..*self
            }),
            GridEvent::RepeatButton(pressed) => after == (LoopGrid {
                holding: pressed,
                holding_at: self.last_pos,
                selection_override: selection_override_for(self.suppressing, pressed, self.last_pos, self.rate),
                ..*self
            }),
            GridEvent::RateButton { id, .. } => {
                let rate = time_at(rate_button_fractions(id as int));
                (LoopGrid {
                    rate,
                    repeat_off_beat: self.select_held,
                    selection_override: selection_override_for(self.suppressing, self.holding, self.holding_at, rate),
                    ..*self
                }).rate_applied(after)
            },
            GridEvent::SwingControl { value } => after == (LoopGrid { swing_value: value, ..*self }),
            GridEvent::TempoControl { value } => after == (LoopGrid { tempo_value: value, ..*self }),
            GridEvent::BankButton { id, pressed } => if pressed && !self.select_held {
                &&& after.current_bank as int == id as int % 256
                &&& after == (LoopGrid { current_bank: after.current_bank, ..*self })
            } else {
                after == *self
            },
            GridEvent::GridInput { id, value, .. } => self.pad_pressed(
                id,
                if value > 0 { OutputValue::On(value) } else { OutputValue::Off },
                after,
            ),
            GridEvent::Connected | GridEvent::DelayedRefresh | GridEvent::Nothing => after == *self,
        }
    }

    /// Handles an input of the grid controller (see `grid_step`). `held_length` is the held
    /// span of the loop button quantized to a loop length, `now_ms` the time of the input in
    /// milliseconds on a clock that never goes back. The grid's lights are drawn outside the
    /// library, so a connection and a refresh change nothing here.
    pub fn grid_input_event(&mut self, event: GridEvent, held_length: MidiTime, now_ms: u64)
        requires
            old(self).well_formed(),
            old(self).loop_state@.undos.len() + old(self).loop_state@.redos.len() + 1 < crate::loop_state::HISTORY_LIMIT,
            event == GridEvent::LoopButton(true) ==> fits(floor_ticks(old(self).last_pos@ + 128) * 256),
            event == GridEvent::LoopButton(false) ==> {
                &&& fits(old(self).last_pos@ - old(self).loop_from@)
                &&& fits(old(self).loop_from@ - old(self).loop_length@)
                &&& fits(old(self).loop_from@ + held_length@)
                &&& fits(old(self).loop_from@ - old(self).loop_length@ + old(self).loop_length@)
            },
            event == GridEvent::RedoButton(true) && old(self).select_held ==> quarter_beats(old(self).loop_length@)
                < 0x0800_0000,
            old(self).length_press_fits(event),
            old(self).override_fits(event),
        ensures
            final(self).well_formed(),
            old(self).grid_step(event, held_length, now_ms, *final(self)),
    {
        match event {
            GridEvent::LoopButton(_) | GridEvent::UndoButton(_) | GridEvent::RedoButton(_) | GridEvent::SelectButton(_)
            | GridEvent::PrepareButton(_) | GridEvent::TriggerModeSelect { .. } | GridEvent::LengthButton { .. } => {
                self.button_event(event, held_length, now_ms);
            },
            _ => {
                self.control_event(event, held_length, now_ms);
            },
        }
    }

    /// The loop, undo, redo, select, prepare, trigger-mode and length buttons.
    fn button_event(&mut self, event: GridEvent, held_length: MidiTime, now_ms: u64)
        requires
            old(self).well_formed(),
            old(self).loop_state@.undos.len() + old(self).loop_state@.redos.len() + 1 < crate::loop_state::HISTORY_LIMIT,
            event == GridEvent::LoopButton(true) ==> fits(floor_ticks(old(self).last_pos@ + 128) * 256),
            event == GridEvent::LoopButton(false) ==> {
                &&& fits(old(self).last_pos@ - old(self).loop_from@)
                &&& fits(old(self).loop_from@ - old(self).loop_length@)
                &&& fits(old(self).loop_from@ + held_length@)
                &&& fits(old(self).loop_from@ - old(self).loop_length@ + old(self).loop_length@)
            },
            event == GridEvent::RedoButton(true) && old(self).select_held ==> quarter_beats(old(self).loop_length@)
                < 0x0800_0000,
            old(self).length_press_fits(event),
            old(self).override_fits(event),
            event is LoopButton || event is UndoButton || event is RedoButton || event is SelectButton
                || event is PrepareButton || event is TriggerModeSelect || event is LengthButton,
        ensures
            final(self).well_formed(),
            old(self).grid_step(event, held_length, now_ms, *final(self)),
    {
        broadcast use vstd::std_specs::hash::group_hash_axioms;
        match event {
            GridEvent::LoopButton(pressed) => {
                if pressed {
                    self.start_loop();
                } else {
                    self.end_loop(held_length);
                }
            },
            GridEvent::UndoButton(pressed) => {
                if pressed {
                    if self.select_held {
                        self.halve_loop_length();
                    } else if self.selection.len() > 0 {
                        self.undo_selection();
                    } else {
                        self.loop_state.undo();
                    }
                    self.last_loop_snapshot = None;
                }
            },
            GridEvent::RedoButton(pressed) => {
                if pressed {
                    if self.select_held {
                        self.double_loop_length();
                    } else if self.selection.len() > 0 {
                        self.redo_selection();
                    } else {
                        self.loop_state.redo();
                    }
                    self.last_loop_snapshot = None;
                }
            },
            GridEvent::SelectButton(pressed) => {
                self.select_held = pressed;
                if pressed {
                    self.selection = HashSet::new();
                }
            },
            GridEvent::PrepareButton(pressed) => {
                self.set_trigger_override_held(pressed);
            },
            GridEvent::TriggerModeSelect { id } => {
                self.trigger_mode = TriggerMode::from_id(id);
            },
            GridEvent::LengthButton { id, pressed } => {
                if pressed {
                    let length = length_for_button(id);
                    self.loop_length = length;
                    if self.select_held {
                        self.reloop(length);
                    }
                }
            },
            _ => {},
        }
    }

    /// The other inputs: flatten, suppress, repeat and rate buttons, swing and tempo,
    /// banks and the pads.
    fn control_event(&mut self, event: GridEvent, held_length: MidiTime, now_ms: u64)
        requires
            old(self).well_formed(),
            old(self).loop_state@.undos.len() + old(self).loop_state@.redos.len() + 1 < crate::loop_state::HISTORY_LIMIT,
            event == GridEvent::LoopButton(true) ==> fits(floor_ticks(old(self).last_pos@ + 128) * 256),
            event == GridEvent::LoopButton(false) ==> {
                &&& fits(old(self).last_pos@ - old(self).loop_from@)
                &&& fits(old(self).loop_from@ - old(self).loop_length@)
                &&& fits(old(self).loop_from@ + held_length@)
                &&& fits(old(self).loop_from@ - old(self).loop_length@ + old(self).loop_length@)
            },
            event == GridEvent::RedoButton(true) && old(self).select_held ==> quarter_beats(old(self).loop_length@)
                < 0x0800_0000,
            old(self).length_press_fits(event),
            old(self).override_fits(event),
            !(event is LoopButton || event is UndoButton || event is RedoButton || event is SelectButton
                || event is PrepareButton || event is TriggerModeSelect || event is LengthButton),
        ensures
            final(self).well_formed(),
            old(self).grid_step(event, held_length, now_ms, *final(self)),
    {
        broadcast use vstd::std_specs::hash::group_hash_axioms;
        match event {
            GridEvent::FlattenButton(pressed) => {
                if pressed {
                    self.flatten_press(now_ms);
                }
            },
            GridEvent::SuppressButton(pressed) => {
                self.suppressing = pressed;
                self.selection_override = selection_override_for_exec(pressed, self.holding, self.holding_at, self.rate);
            },
            GridEvent::RepeatButton(pressed) => {
                self.holding = pressed;
                self.holding_at = self.last_pos;
                self.selection_override = selection_override_for_exec(self.suppressing, pressed, self.last_pos, self.rate);
            },
            GridEvent::RateButton { id, .. } => {
                let rate = rate_for_button(id);
                proof {
                    lemma_time_at(rate@, rate);
                }
                self.repeat_off_beat = self.select_held;
                self.set_rate(rate);
            },
            GridEvent::SwingControl { value } => {
                self.swing_value = value;
            },
            GridEvent::TempoControl { value } => {
                self.tempo_value = value;
            },
            GridEvent::BankButton { id, pressed } => {
                if pressed && !self.select_held {
                    self.current_bank = (id % 256) as u8;
                }
            },
            GridEvent::GridInput { id, value, .. } => {
                if value > 0 {
                    self.grid_input(id, OutputValue::On(value));
                } else {
                    self.grid_input(id, OutputValue::Off);
                }
            },
            _ => {},
        }
    }
}

impl LoopGrid {
    /// What a button of another controller makes of the grid: the loop button as on the
    /// grid, the double button doubles the loop length, the prepare button holds the
    /// trigger-mode override.
    pub open spec fn remote_step(&self, event: LoopGridRemoteEvent, held_length: MidiTime, after: LoopGrid) -> bool {
        match event {
            LoopGridRemoteEvent::LoopButton(pressed) => if pressed {
                self.loop_started(after)
            } else {
                self.loop_closed(held_length, after)
            },
            LoopGridRemoteEvent::DoubleButton(pressed) => if pressed { self.loop_doubled(after) } else { after == *self },
            LoopGridRemoteEvent::PrepareButton(pressed) => after == (LoopGrid { trigger_override_held: pressed, ..*self }),
        }
    }

    /// Handles a button of another controller (see `remote_step`). `held_length` is the
    /// held span of the loop button quantized to a loop length.
    pub fn remote_event(&mut self, event: LoopGridRemoteEvent, held_length: MidiTime)
        requires
            old(self).well_formed(),
            old(self).loop_state@.undos.len() + old(self).loop_state@.redos.len() + 1 < crate::loop_state::HISTORY_LIMIT,
            event == LoopGridRemoteEvent::LoopButton(true) ==> fits(floor_ticks(old(self).last_pos@ + 128) * 256),
            event == LoopGridRemoteEvent::LoopButton(false) ==> {
                &&& fits(old(self).last_pos@ - old(self).loop_from@)
                &&& fits(old(self).loop_from@ - old(self).loop_length@)
                &&& fits(old(self).loop_from@ + held_length@)
                &&& fits(old(self).loop_from@ - old(self).loop_length@ + old(self).loop_length@)
            },
            event == LoopGridRemoteEvent::DoubleButton(true) ==> quarter_beats(old(self).loop_length@) < 0x0800_0000,
        ensures
            final(self).well_formed(),
            old(self).remote_step(event, held_length, *final(self)),
    {
        match event {
            LoopGridRemoteEvent::LoopButton(pressed) => {
                if pressed {
                    self.start_loop();
                } else {
                    self.end_loop(held_length);
                }
            },
            LoopGridRemoteEvent::DoubleButton(pressed) => {
                if pressed {
                    self.double_loop_length();
                }
            },
            LoopGridRemoteEvent::PrepareButton(pressed) => {
                self.set_trigger_override_held(pressed);
            },
        }
    }
}

/// A looped range plays the same stretch of its recording one range length later: the
/// playback position repeats with the range length.
pub proof fn law_range_playback_repeats(pos: int, length: int, position: int)
    requires
        length > 0,
    ensures
        playback_position(pos, length, position + length) == playback_position(pos, length, position),
        pos <= playback_position(pos, length, position) < pos + length,
{
    let w = wrap(pos, length);
    vstd::arithmetic::div_mod::lemma_mod_add_multiples_vanish(position - w, length);
    assert(position + length - w == (position - w) + length);
}

impl LoopGrid {
    /// A trigger looping a range of its recording plays, in every clock window, each event
    /// it recorded in the matching stretch of the range, moved into the window.
    pub proof fn law_range_replays_recording(&self, id: u32, f: LoopEvent)
        requires
            self.playable(),
            self.out_transforms@.contains_key(id),
            self.out_transforms@[id] is Range,
            self.length_for(id)@ > 0,
            self.recorder.events(id).contains(f),
            ({
                let t = self.out_transforms@[id];
                let pb = playback_position(t->Range_pos@, t->Range_length@, self.pos_for(id)@);
                pb <= f.pos@ < pb + self.length_for(id)@
            }),
        ensures
            ({
                let t = self.out_transforms@[id];
                let pb = playback_position(t->Range_pos@, t->Range_length@, self.pos_for(id)@);
                exists|e: LoopEvent| #[trigger] self.playback().contains(e) && is_shift(e, f, self.pos_for(id)@ - pb)
            }),
    {
        let t = self.out_transforms@[id];
        let position = self.pos_for(id);
        let length = self.length_for(id);
        let pb = playback_position(t->Range_pos@, t->Range_length@, position@);
        let d = position@ - pb;
        self.recorder.lemma_events(id);
        let i = choose|i: int| 0 <= i < self.recorder.events(id).len() && self.recorder.events(id)[i] == f;
        assert(f.id == id);
        lemma_time_at(f.pos@ + d, f.pos);
        let e = LoopEvent { id: f.id, value: f.value, pos: time_at(f.pos@ + d) };
        assert(is_shift(e, f, d));
        let moved = Set::new(|e: LoopEvent| exists|g: LoopEvent| #[trigger] self.recorder.events(id).contains(g)
            && pb <= g.pos@ < pb + length@ && is_shift(e, g, d));
        assert(moved.contains(e));
        assert(self.transform_playback(id, t).contains(e));
        assert(self.playback().contains(e));
    }
}

/// How a repeated or quantized press moves on once the clock at `pos` reaches the end of
/// its step: while a repeat is held it runs into its next step (a sub-tick on); while a
/// value is held the quantized press is extended by a rate; otherwise a quantized press
/// that was playing ends, a pressed value that was waiting starts playing for a rate, and
/// anything else stops. The flag says whether the trigger's override must be refreshed: when
/// a quantized press starts, goes on or ends, and when something else stops while its key
/// (`held`) is no longer down.
pub open spec fn advanced_repeat(
    st: RepeatState,
    pos: MidiTime,
    over: Option<LoopTransform>,
    rate: MidiTime,
    held: bool,
) -> (RepeatState, bool) {
    if st.phase != RepeatPhase::Idle && pos@ >= st.to@ {
        match over {
            Some(LoopTransform::Repeat { rate: r, offset, .. }) => (
                RepeatState { phase: RepeatPhase::Current, to: time_at(next_repeat_time(pos@ + 1, r@, offset@)), ..st },
                false,
            ),
            Some(LoopTransform::Value(_)) => (
                RepeatState { phase: RepeatPhase::QuantizeCurrent, to: time_at(st.to@ + rate@ - 1), ..st },
                true,
            ),
            _ => if st.phase == RepeatPhase::QuantizeCurrent {
                (RepeatState { phase: RepeatPhase::Idle, ..st }, true)
            } else if st.transform is Value {
                (RepeatState { phase: RepeatPhase::QuantizeCurrent, to: time_at(st.to@ + rate@ - 1), ..st }, true)
            } else {
                (RepeatState { phase: RepeatPhase::Idle, ..st }, !held)
            },
        }
    } else {
        (st, false)
    }
}

/// A clock position far enough inside the representable times that a span and a step
/// can be added to it.
pub open spec fn position_ok(pos: MidiTime) -> bool {
    min_fractions() + max_span() <= pos@ && pos@ + 2 * max_span() < max_fractions()
}

/// A step end far enough inside the representable times for a rate to be added to it.
pub open spec fn step_end_ok(to: MidiTime) -> bool {
    min_fractions() + max_span() <= to@ && to@ + max_span() < max_fractions()
}

fn advance_repeat(st: RepeatState, pos: MidiTime, over: Option<LoopTransform>, rate: MidiTime, held: bool) -> (r: (RepeatState, bool))
    requires
        position_ok(pos),
        step_end_ok(st.to),
        0 < rate@ <= max_span(),
        over matches Some(t) ==> repeat_ok(t),
    ensures
        r == advanced_repeat(st, pos, over, rate, held),
{
    proof {
        lemma_view_fits(pos);
        lemma_view_fits(st.to);
    }
    if st.phase != RepeatPhase::Idle && pos.fractions() >= st.to.fractions() {
        match over {
            Some(LoopTransform::Repeat { rate: r, offset, .. }) => {
                let next = next_repeat(pos.plus(MidiTime::from_sub_ticks(1)), r, offset);
                proof {
                    lemma_time_at(next@, next);
                }
                (RepeatState { phase: RepeatPhase::Current, to: next, ..st }, false)
            },
            Some(LoopTransform::Value(_)) => {
                let to = st.to.plus(rate).minus(MidiTime::from_sub_ticks(1));
                proof {
                    lemma_time_at(to@, to);
                }
                (RepeatState { phase: RepeatPhase::QuantizeCurrent, to, ..st }, true)
            },
            _ => {
                if st.phase == RepeatPhase::QuantizeCurrent {
                    (RepeatState { phase: RepeatPhase::Idle, ..st }, true)
                } else if let LoopTransform::Value(_) = st.transform {
                    let to = st.to.plus(rate).minus(MidiTime::from_sub_ticks(1));
                    proof {
                        lemma_time_at(to@, to);
                    }
                    (RepeatState { phase: RepeatPhase::QuantizeCurrent, to, ..st }, true)
                } else {
                    (RepeatState { phase: RepeatPhase::Idle, ..st }, !held)
                }
            },
        }
    } else {
        (st, false)
    }
}

impl LoopGrid {
    /// The override held for a trigger, if any.
    pub open spec fn override_of(&self, id: u32) -> Option<LoopTransform> {
        if self.override_values@.contains_key(id) { Some(self.override_values@[id]) } else { None }
    }

    /// Whether the key of trigger `id` (taken modulo the 64 keys of a bank) is held down.
    pub open spec fn key_held(&self, id: u32) -> bool {
        self.currently_held_inputs@.contains(id % 64)
    }

    /// The repeats and quantized presses can be moved on: the clock positions, their step
    /// ends, the repeat overrides and the rate can be added to without leaving the
    /// representable times.
    pub open spec fn repeats_ok(&self) -> bool {
        &&& position_ok(self.last_pos)
        &&& position_ok(self.last_raw_pos)
        &&& 0 < self.rate@ <= max_span()
        &&& forall|k: u32| #[trigger] self.repeat_states@.contains_key(k) ==> step_end_ok(self.repeat_states@[k].to)
        &&& forall|k: u32| #[trigger] self.override_values@.contains_key(k) ==> repeat_ok(self.override_values@[k])
    }

    /// Moves on every repeated or quantized press whose step the clock reached (see
    /// `advanced_repeat`), each at its trigger's clock position; answers the triggers whose
    /// overrides must be refreshed.
    pub fn advance_repeats(&mut self) -> (r: Vec<u32>)
        requires
            old(self).well_formed(),
            old(self).repeats_ok(),
        ensures
            final(self).well_formed(),
            final(self).repeat_states@ == Map::new(
                |k: u32| old(self).repeat_states@.contains_key(k),
                |k: u32| advanced_repeat(old(self).repeat_states@[k], old(self).pos_for(k), old(self).override_of(k),
                    old(self).rate, old(self).key_held(k)).0,
            ),
            r@.no_duplicates(),
            r@.to_set() == Set::new(|k: u32| old(self).repeat_states@.contains_key(k)
                && advanced_repeat(old(self).repeat_states@[k], old(self).pos_for(k), old(self).override_of(k),
                    old(self).rate, old(self).key_held(k)).1),
            *final(self) == (LoopGrid { repeat_states: final(self).repeat_states, ..*old(self) }),
    {
        broadcast use vstd::std_specs::hash::group_hash_axioms;
        let ghost g0 = *self;
        let ghost start = self.repeat_states@;
        let mut keys: Vec<u32> = Vec::new();
        let ghost all = self.repeat_states.keys().remaining();
        for id in it: self.repeat_states.keys()
            invariant
                it.seq() == all,
                all.unref().to_set() == start.dom(),
                all.unref().no_duplicates(),
                keys@ == all.unref().take(it.index() as int),
        {
            keys.push(*id);
            proof {
                assert(all.unref().take(it.index() + 1) == all.unref().take(it.index() as int).push(*id));
            }
        }
        proof {
            assert(all.unref().take(all.len() as int) == all.unref());
        }
        let ghost target = Map::new(
            |k: u32| start.contains_key(k),
            |k: u32| advanced_repeat(start[k], g0.pos_for(k), g0.override_of(k), g0.rate, g0.key_held(k)).0,
        );
        let mut refresh: Vec<u32> = Vec::new();
        let mut i: usize = 0;
        while i < keys.len()
            invariant
                i <= keys@.len(),
                keys@.to_set() == start.dom(),
                keys@.no_duplicates(),
                *self == (LoopGrid { repeat_states: self.repeat_states, ..g0 }),
                g0.repeats_ok(),
                g0.well_formed(),
                start == g0.repeat_states@,
                target == Map::new(
                    |k: u32| start.contains_key(k),
                    |k: u32| advanced_repeat(start[k], g0.pos_for(k), g0.override_of(k), g0.rate, g0.key_held(k)).0,
                ),
                self.repeat_states@.dom() == start.dom(),
                forall|k: u32| #[trigger] self.repeat_states@.contains_key(k) ==> self.repeat_states@[k]
                    == if keys@.take(i as int).contains(k) { target[k] } else { start[k] },
                refresh@.no_duplicates(),
                refresh@.to_set() == Set::new(|k: u32| keys@.take(i as int).contains(k)
                    && advanced_repeat(start[k], g0.pos_for(k), g0.override_of(k), g0.rate, g0.key_held(k)).1),
                forall|a: int| 0 <= a < refresh@.len() ==> keys@.take(i as int).contains(#[trigger] refresh@[a]),
            decreases keys@.len() - i,
        {
            let id = keys[i];
            proof {
                assert(keys@.to_set().contains(id));
            }
            let st = *self.repeat_states.get(&id).unwrap();
            let pos = self.pos_for_id(id);
            let over = match self.override_values.get(&id) {
                Some(t) => Some(*t),
                None => None,
            };
            let mut held = false;
            let mut j: usize = 0;
            while j < self.currently_held_inputs.len()
                invariant
                    j <= self.currently_held_inputs@.len(),
                    *self == (LoopGrid { repeat_states: self.repeat_states, ..g0 }),
                    held == exists|x: int| 0 <= x < j && self.currently_held_inputs@[x] == id % 64,
                decreases self.currently_held_inputs@.len() - j,
            {
                if self.currently_held_inputs[j] == id % 64 {
                    held = true;
                }
                j = j + 1;
            }
            proof {
                assert(held == self.currently_held_inputs@.contains(id % 64));
                assert(self.repeat_states@[id] == start[id]) by {
                    if keys@.take(i as int).contains(id) {
                        let x = choose|x: int| 0 <= x < i && keys@.take(i as int)[x] == id;
                        assert(keys@[x] == keys@[i as int]);
                    }
                }
            }
            let (next, needs_refresh) = advance_repeat(st, pos, over, self.rate, held);
            self.repeat_states.insert(id, next);
            let ghost refresh_before = refresh@;
            if needs_refresh {
                refresh.push(id);
            }
            proof {
                let prev = keys@.take(i as int);
                let cur = keys@.take(i + 1);
                assert(cur == prev.push(id));
                assert(!prev.contains(id)) by {
                    if prev.contains(id) {
                        let x = choose|x: int| 0 <= x < prev.len() && prev[x] == id;
                        assert(keys@[x] == keys@[i as int]);
                    }
                }
                assert forall|k: u32| #[trigger] cur.contains(k) <==> (prev.contains(k) || k == id) by {
                    if cur.contains(k) && k != id {
                        let x = choose|x: int| 0 <= x < cur.len() && cur[x] == k;
                        assert(prev[x] == k);
                    }
                    if prev.contains(k) {
                        let x = choose|x: int| 0 <= x < prev.len() && prev[x] == k;
                        assert(cur[x] == k);
                    }
                    if k == id {
                        assert(cur[i as int] == k);
                    }
                }
                assert(self.repeat_states@.dom() =~= start.dom());
                let want = Set::new(|k: u32| cur.contains(k)
                    && advanced_repeat(start[k], g0.pos_for(k), g0.override_of(k), g0.rate, g0.key_held(k)).1);
                assert forall|k: u32| #[trigger] want.contains(k) implies refresh@.to_set().contains(k) by {
                    if k != id {
                        let have = Set::new(|k2: u32| prev.contains(k2)
                            && advanced_repeat(start[k2], g0.pos_for(k2), g0.override_of(k2), g0.rate, g0.key_held(k2)).1);
                        assert(have.contains(k));
                        assert(refresh_before.to_set().contains(k));
                        let x = choose|x: int| 0 <= x < refresh_before.len() && refresh_before[x] == k;
                        assert(refresh@[x] == k);
                    } else {
                        assert(refresh@[refresh@.len() - 1] == k);
                    }
                }
                assert forall|k: u32| #[trigger] refresh@.to_set().contains(k) implies want.contains(k) by {
                    let x = choose|x: int| 0 <= x < refresh@.len() && refresh@[x] == k;
                    if x < refresh_before.len() {
                        assert(refresh_before[x] == k);
                        assert(refresh_before.to_set().contains(k));
                    }
                }
                assert(refresh@.to_set() =~= want);
                assert forall|a: int| 0 <= a < refresh@.len() implies cur.contains(#[trigger] refresh@[a]) by {
                    if a < refresh_before.len() {
                        assert(refresh_before[a] == refresh@[a]);
                        assert(prev.contains(refresh_before[a]));
                    }
                }
                assert forall|a: int, b: int| 0 <= a < refresh@.len() && 0 <= b < refresh@.len() && a != b implies refresh@[a] != refresh@[b] by {
                    if a == refresh_before.len() {
                        assert(refresh_before[b] == refresh@[b]);
                        assert(prev.contains(refresh_before[b]));
                    } else if b == refresh_before.len() {
                        assert(refresh_before[a] == refresh@[a]);
                        assert(prev.contains(refresh_before[a]));
                    } else {
                        assert(refresh_before[a] == refresh@[a] && refresh_before[b] == refresh@[b]);
                    }
                }
            }
            i = i + 1;
        }
        proof {
            assert(keys@.take(keys@.len() as int) == keys@);
            assert forall|k: u32| keys@.contains(k) <==> start.contains_key(k) by {
                assert(keys@.to_set().contains(k) == keys@.contains(k));
            }
            assert(self.repeat_states@ =~= target);
            assert forall|k: u32| #[trigger] self.repeat_states@.contains_key(k) implies bounded(self.repeat_states@[k].transform) by {
                assert(start.contains_key(k));
            }
        }
        refresh
    }
}

/// The transform flattening keeps for a trigger: what it plays now, except that a range
/// with no recorded events in it becomes nothing.
pub open spec fn flattened_entry(t: LoopTransform, events: Seq<LoopEvent>) -> LoopTransform {
    match t {
        LoopTransform::Range { pos, length } => if has_events_in(events, pos@, pos@ + length@) {
            t
        } else {
            LoopTransform::Empty
        },
        _ => t,
    }
}

impl LoopGrid {
    /// A grid with nothing recorded, an empty loop of `loop_length`, and nothing held.
    pub fn new(loop_length: MidiTime, rate: MidiTime) -> (r: LoopGrid)
        ensures
            r.well_formed(),
            r.loop_length == loop_length,
            r.rate == rate,
            r.trigger_mode == TriggerMode::Immediate,
            !r.trigger_override_held,
            r.selection@.is_empty(),
            r.selection_override == LoopTransform::Empty,
            r.override_values@.is_empty(),
            r.sustained_values@.is_empty(),
            r.repeat_states@.is_empty(),
            r.out_transforms@.is_empty(),
            r.out_values@.is_empty(),
            r.last_pos@ == 0,
            r.last_length@ == 0,
            r.last_raw_pos@ == 0,
            r.last_raw_length@ == 0,
            r.straight_timing_ids@.is_empty(),
            r.loop_from@ == 0,
            r.last_loop_snapshot is None,
            r.last_triggered.well_formed(),
            r.currently_held_inputs@ == Seq::<u32>::empty(),
            r.last_changed_triggers@.is_empty(),
            r.input_values@.is_empty(),
            r.active@.is_empty(),
            !r.select_held,
            !r.loop_held,
            r.selection_override_offset is None,
            r.mapping@.is_empty(),
            r.no_suppress@.is_empty(),
            r.no_suppress_held@.is_empty(),
            r.chunk_repeat_modes@.len() == 0,
            r.preserve_immediate_until_release@.is_empty(),
            !r.suppressing,
            !r.holding,
            !r.repeat_off_beat,
            r.current_bank == 0,
            r.last_flatten_press_ms == 0,
            !r.reset_automation,
            forall|c: usize| #[trigger] r.last_triggered.recent(c) == Seq::<u32>::empty(),
            current(r.loop_state@).transforms@.is_empty(),
            r.loop_state@.undos.len() == 1,
            r.loop_state@.redos.len() == 0,
            r.loop_state@.override_loop is None,
            !r.loop_state@.frozen,
            r.loop_state@.changes.len() == 0,
    {
        broadcast use vstd::std_specs::hash::group_hash_axioms;
        let r = LoopGrid {
            recorder: LoopRecorder::new(),
            loop_state: LoopState::new(loop_length),
            loop_length,
            rate,
            trigger_mode: TriggerMode::Immediate,
            trigger_override_held: false,
            selection: HashSet::new(),
            selection_override: LoopTransform::Empty,
            no_suppress: HashSet::new(),
            no_suppress_held: HashSet::new(),
            sustained_values: HashMap::new(),
            override_values: HashMap::new(),
            repeat_states: HashMap::new(),
            out_transforms: HashMap::new(),
            out_values: HashMap::new(),
            last_pos: MidiTime::zero(),
            last_length: MidiTime::zero(),
            last_raw_pos: MidiTime::zero(),
            last_raw_length: MidiTime::zero(),
            straight_timing_ids: HashSet::new(),
            loop_from: MidiTime::zero(),
            last_loop_snapshot: None,
            last_triggered: TriggerHistory::new(),
            currently_held_inputs: Vec::new(),
            last_changed_triggers: HashMap::new(),
            input_values: HashMap::new(),
            active: HashSet::new(),
            select_held: false,
            loop_held: false,
            selection_override_offset: None,
            mapping: HashMap::new(),
            chunk_repeat_modes: Vec::new(),
            preserve_immediate_until_release: HashSet::new(),
            suppressing: false,
            holding: false,
            holding_at: MidiTime::zero(),
            repeat_off_beat: false,
            current_bank: 0,
            swing_value: 64,
            tempo_value: 64,
            last_flatten_press_ms: 0,
            reset_automation: false,
        };
        r
    }

    /// The trigger mode in force: while the override is held, the selected mode's
    /// override mode.
    pub fn effective_trigger_mode(&self) -> (r: TriggerMode)
        ensures
            r == (if self.trigger_override_held {
                if self.trigger_mode == TriggerMode::Repeat { TriggerMode::Quantized } else { TriggerMode::Repeat }
            } else {
                self.trigger_mode
            }),
    {
        if self.trigger_override_held {
            self.trigger_mode.override_mode()
        } else {
            self.trigger_mode
        }
    }

    /// Holds or releases the trigger mode override; answers whether anything changed
    /// (the inputs then need refreshing).
    pub fn set_trigger_override_held(&mut self, pressed: bool) -> (changed: bool)
        ensures
            changed == (old(self).trigger_override_held != pressed),
            final(self).trigger_override_held == pressed,
            *final(self) == (LoopGrid { trigger_override_held: pressed, ..*old(self) }),
    {
        if self.trigger_override_held == pressed {
            return false;
        }
        self.trigger_override_held = pressed;
        true
    }

    /// What doubling the loop length makes of the grid (see `double_loop_length`).
    pub open spec fn loop_doubled(&self, after: LoopGrid) -> bool {
        &&& (exists|p: int| #![auto] power_of_two(p) && quarter_beats(self.loop_length@) < p
                && (p == 1 || p / 2 <= quarter_beats(self.loop_length@))
                && after.loop_length@ == (if p * 1536 <= 32 * 6144 { p * 1536 } else { 32 * 6144int }))
        &&& (after == (LoopGrid { loop_length: after.loop_length, ..*self }))
    }

    /// Doubles the loop length to the next power of two of quarter beats, at most 32 beats.
    pub fn double_loop_length(&mut self)
        requires
            quarter_beats(old(self).loop_length@) < 0x0800_0000,
        ensures
            old(self).loop_doubled(*final(self)),
    {
        let doubled = get_double_loop_length(self.loop_length);
        let cap = MidiTime::from_beats(32);
        self.loop_length = if cap.is_before(doubled) { cap } else { doubled };
    }

    /// What halving the loop length makes of the grid (see `halve_loop_length`).
    pub open spec fn loop_halved(&self, after: LoopGrid) -> bool {
        &&& (quarter_beats(self.loop_length@) <= 1 ==> after.loop_length@ == 1536)
        &&& (quarter_beats(self.loop_length@) > 1 ==> exists|p: int| #![auto] power_of_two(p)
                && p < quarter_beats(self.loop_length@) <= 2 * p
                && after.loop_length@ == (if p * 1536 >= 1536 { p * 1536 } else { 1536int }))
        &&& (after == (LoopGrid { loop_length: after.loop_length, ..*self }))
    }

    /// Halves the loop length to the previous power of two of quarter beats, at least a
    /// quarter beat.
    pub fn halve_loop_length(&mut self)
        ensures
            old(self).loop_halved(*final(self)),
    {
        let halved = get_half_loop_length(self.loop_length);
        let floor = MidiTime::from_measure(1, 4);
        self.loop_length = if halved.is_before(floor) { floor } else { halved };
    }

    /// Adds a trigger to the selection.
    pub fn select(&mut self, id: u32)
        ensures
            final(self).selection@ == old(self).selection@.insert(id),
            *final(self) == (LoopGrid { selection: final(self).selection, ..*old(self) }),
    {
        broadcast use vstd::std_specs::hash::group_hash_axioms;
        self.selection.insert(id);
    }

    /// Takes a trigger out of the selection.
    pub fn unselect(&mut self, id: u32)
        ensures
            final(self).selection@ == old(self).selection@.remove(id),
            *final(self) == (LoopGrid { selection: final(self).selection, ..*old(self) }),
    {
        broadcast use vstd::std_specs::hash::group_hash_axioms;
        self.selection.remove(&id);
    }

    /// Moves a repeat of trigger `id` on when its press arrives: a pending repeat starts
    /// playing on the press, a playing one is marked done on the release.
    pub fn handle_repeat_trigger(&mut self, id: u32, value: OutputValue)
        requires
            old(self).well_formed(),
        ensures
            final(self).well_formed(),
            final(self).repeat_states@ == (if old(self).repeat_states@.contains_key(id) {
                let rs = old(self).repeat_states@[id];
                if value is On && rs.phase == RepeatPhase::Pending {
                    old(self).repeat_states@.insert(id, RepeatState { phase: RepeatPhase::Current, ..rs })
                } else if value is Off && rs.phase == RepeatPhase::Current {
                    old(self).repeat_states@.insert(id, RepeatState { phase: RepeatPhase::Triggered, ..rs })
                } else {
                    old(self).repeat_states@
                }
            } else {
                old(self).repeat_states@
            }),
            *final(self) == (LoopGrid { repeat_states: final(self).repeat_states, ..*old(self) }),
    {
        broadcast use vstd::std_specs::hash::group_hash_axioms;
        if let Some(repeat_state) = self.repeat_states.get(&id) {
            let mut state = *repeat_state;
            if value.is_on() && state.phase == RepeatPhase::Pending {
                state.phase = RepeatPhase::Current;
                self.repeat_states.insert(id, state);
            } else if !value.is_on() && state.phase == RepeatPhase::Current {
                state.phase = RepeatPhase::Triggered;
                self.repeat_states.insert(id, state);
            }
        }
        proof {
            assert forall|k: u32| #[trigger] self.repeat_states@.contains_key(k) implies bounded(self.repeat_states@[k].transform) by {
                assert(old(self).repeat_states@.contains_key(k));
            }
        }
    }

    /// Handles a played event of a trigger that drives a chunk: stores its value,
    /// advances its repeat when the on/off state changed, and records it. Answers the
    /// value the chunk must be triggered with, if the on/off state changed.
    pub fn event(&mut self, event: LoopEvent) -> (r: Option<OutputValue>)
        requires
            old(self).well_formed(),
        ensures
            final(self).well_formed(),
            final(self).out_values@ == old(self).out_values@.insert(event.id, event.value),
            r == (if old(self).out_values@.contains_key(event.id)
                && (old(self).out_values@[event.id] is On) == (event.value is On) {
                None
            } else {
                Some(event.value)
            }),
            final(self).recorder.events(event.id).to_set() == old(self).recorder.events(event.id).to_set().insert(event),
            forall|id: u32| id != event.id ==> #[trigger] final(self).recorder.events(id) == old(self).recorder.events(id),
    {
        let changed = maybe_update(&mut self.out_values, event.id, event.value);
        if changed.is_some() {
            self.handle_repeat_trigger(event.id, event.value);
        }
        self.recorder.add(event);
        changed
    }

    /// What flattening makes of the grid (see `flatten`).
    pub open spec fn flattened(&self, after: LoopGrid) -> bool {
        &&& (exists|c: LoopCollection| #![trigger model_set(self.loop_state@, c)] {
                &&& c.length == current(self.loop_state@).length
                &&& forall|k: u32| #![auto] k < PLAYABLE_GRID_SIZE ==> c.transforms@.contains_key(k)
                    && c.transforms@[k] == flattened_entry(transform_or_empty(self.out_transforms@, k), self.recorder.events(k))
                &&& forall|k: u32| #![auto] k >= PLAYABLE_GRID_SIZE ==> lookup(c.transforms@, k) == lookup(current(self.loop_state@).transforms@, k)
                &&& after.loop_state@ == model_set(self.loop_state@, c)
            })
        &&& (after == (LoopGrid { loop_state: after.loop_state, ..*self }))
    }

    /// Keeps what every grid trigger plays now as the loop (ranges with nothing recorded
    /// in them become nothing).
    pub fn flatten(&mut self)
        requires
            old(self).well_formed(),
            old(self).loop_state@.undos.len() + old(self).loop_state@.redos.len() + 1 < crate::loop_state::HISTORY_LIMIT,
        ensures
            final(self).well_formed(),
            old(self).flattened(*final(self)),
    {
        broadcast use vstd::std_specs::hash::group_hash_axioms;
        let mut new_loop = self.loop_state.get().clone();
        let ghost base = current(self.loop_state@);
        let mut id: u32 = 0;
        while id < PLAYABLE_GRID_SIZE
            invariant
                self.well_formed(),
                id <= PLAYABLE_GRID_SIZE,
                new_loop.length == base.length,
                forall|k: u32| #![auto] k < id ==> new_loop.transforms@.contains_key(k)
                    && new_loop.transforms@[k] == flattened_entry(transform_or_empty(self.out_transforms@, k), self.recorder.events(k)),
                forall|k: u32| #![auto] k >= id ==> lookup(new_loop.transforms@, k) == lookup(base.transforms@, k),
            decreases PLAYABLE_GRID_SIZE - id,
        {
            let transform = match self.out_transforms.get(&id) {
                Some(t) => *t,
                None => LoopTransform::Empty,
            };
            let keep = match transform {
                LoopTransform::Range { pos, length } => {
                    proof {
                        assert(self.out_transforms@.contains_key(id));
                    }
                    let c = self.capture_transform(id, pos, length);
                    matches!(c, LoopTransform::Range { .. })
                },
                _ => true,
            };
            if keep {
                new_loop.transforms.insert(id, transform);
            } else {
                new_loop.transforms.insert(id, LoopTransform::Empty);
            }
            id += 1;
        }
        let ghost c = new_loop;
        self.loop_state.set(new_loop);
    }

    /// Whether clearing `target` silences trigger `k`: it is targeted (a grid trigger, or a
    /// selected one) and either the clear is permanent or `k` is not protected.
    pub open spec fn clears(&self, target: TransformTarget, clear_permanent: bool, k: u32) -> bool {
        &&& (if target == TransformTarget::Selected { self.selection@.contains(k) } else { k < PLAYABLE_GRID_SIZE })
        &&& (clear_permanent || !self.no_suppress@.contains(k))
    }

    /// What clearing loops makes of the grid (see `clear_loops`).
    pub open spec fn loops_cleared(&self, target: TransformTarget, clear_permanent: bool, after: LoopGrid) -> bool {
        &&& (exists|c: LoopCollection| #![trigger model_set(self.loop_state@, c)] {
                &&& c.length == current(self.loop_state@).length
                &&& forall|k: u32| #![auto] self.clears(target, clear_permanent, k)
                    ==> lookup(c.transforms@, k) == Some(LoopTransform::Value(OutputValue::Off))
                &&& forall|k: u32| #![auto] !self.clears(target, clear_permanent, k)
                    ==> lookup(c.transforms@, k) == lookup(current(self.loop_state@).transforms@, k)
                &&& after.loop_state@ == model_set(self.loop_state@, c)
            })
        &&& (after == (LoopGrid { loop_state: after.loop_state, ..*self }))
    }

    /// Silences the loops of the targeted triggers (all grid triggers, or the selected
    /// ones); triggers protected from suppression are kept unless `clear_permanent`.
    pub fn clear_loops(&mut self, target: TransformTarget, clear_permanent: bool)
        requires
            old(self).well_formed(),
            old(self).loop_state@.undos.len() + old(self).loop_state@.redos.len() + 1 < crate::loop_state::HISTORY_LIMIT,
        ensures
            final(self).well_formed(),
            old(self).loops_cleared(target, clear_permanent, *final(self)),
    {
        broadcast use vstd::std_specs::hash::group_hash_axioms;
        let mut new_loop = self.loop_state.get().clone();
        let ghost base = current(self.loop_state@);
        let ids: Vec<u32> = match target {
            TransformTarget::All | TransformTarget::Main => {
                let mut v: Vec<u32> = Vec::new();
                let mut id: u32 = 0;
                while id < PLAYABLE_GRID_SIZE
                    invariant
                        id <= PLAYABLE_GRID_SIZE,
                        v@.len() == id,
                        forall|i: int| 0 <= i < id ==> v@[i] == i,
                    decreases PLAYABLE_GRID_SIZE - id,
                {
                    v.push(id);
                    id += 1;
                }
                proof {
                    assert forall|k: u32| v@.contains(k) <==> k < PLAYABLE_GRID_SIZE by {
                        if k < PLAYABLE_GRID_SIZE {
                            assert(v@[k as int] == k);
                        }
                    }
                }
                v
            },
            TransformTarget::Selected => {
                let mut v: Vec<u32> = Vec::new();
                let ghost all = self.selection.iter().remaining();
                for id in it: self.selection.iter()
                    invariant
                        it.seq() == all,
                        all.unref().to_set() == self.selection@,
                        v@ == all.unref().take(it.index() as int),
                {
                    v.push(*id);
                    proof {
                        assert(all.unref().take(it.index() + 1) == all.unref().take(it.index() as int).push(*id));
                    }
                }
                proof {
                    assert(all.unref().take(all.len() as int) == all.unref());
                    assert forall|k: u32| v@.contains(k) <==> self.selection@.contains(k) by {
                        assert(all.unref().to_set().contains(k) <==> all.unref().contains(k));
                    }
                }
                v
            },
        };
        let mut i: usize = 0;
        while i < ids.len()
            invariant
                i <= ids@.len(),
                new_loop.length == base.length,
                forall|k: u32| #![auto] ids@.subrange(0, i as int).contains(k) && (clear_permanent || !self.no_suppress@.contains(k))
                    ==> lookup(new_loop.transforms@, k) == Some(LoopTransform::Value(OutputValue::Off)),
                forall|k: u32| #![auto] !(ids@.subrange(0, i as int).contains(k) && (clear_permanent || !self.no_suppress@.contains(k)))
                    ==> lookup(new_loop.transforms@, k) == lookup(base.transforms@, k),
            decreases ids@.len() - i,
        {
            let id = ids[i];
            let ghost before = new_loop.transforms@;
            let clear = clear_permanent || !self.no_suppress.contains(&id);
            assert(clear == (clear_permanent || !self.no_suppress@.contains(id)));
            if clear {
                new_loop.transforms.insert(id, LoopTransform::Value(OutputValue::Off));
                assert(new_loop.transforms@ == before.insert(id, LoopTransform::Value(OutputValue::Off)));
            }
            proof {
                assert(ids@.subrange(0, i as int + 1) == ids@.subrange(0, i as int).push(id));
                assert forall|k: u32| #![auto] ids@.subrange(0, i as int + 1).contains(k) <==> (ids@.subrange(0, i as int).contains(k) || k == id) by {
                    if ids@.subrange(0, i as int + 1).contains(k) && k != id {
                        let j = choose|j: int| 0 <= j < i + 1 && #[trigger] ids@.subrange(0, i as int + 1)[j] == k;
                        assert(ids@.subrange(0, i as int)[j] == k);
                    }
                    if k == id {
                        assert(ids@.subrange(0, i as int + 1)[i as int] == k);
                    }
                }
                assert forall|k: u32| #![auto] ids@.subrange(0, i as int + 1).contains(k) && (clear_permanent || !self.no_suppress@.contains(k))
                    implies lookup(new_loop.transforms@, k) == Some(LoopTransform::Value(OutputValue::Off)) by {
                    if k != id {
                        assert(ids@.subrange(0, i as int).contains(k));
                        assert(lookup(before, k) == Some(LoopTransform::Value(OutputValue::Off)));
                    }
                }
            }
            i += 1;
        }
        proof {
            assert(ids@.subrange(0, ids@.len() as int) == ids@);
        }
        self.loop_state.set(new_loop);
    }
}


impl LoopGrid {
    /// Whether anything plays other than the loop, so that flattening would change it:
    /// a selection override, a held override, or a sustained value that differs from the
    /// loop.
    pub open spec fn flatten_pending(&self, loop_collection: LoopCollection) -> bool {
        ||| self.selection_override != LoopTransform::Empty
        ||| exists|k: u32| #[trigger] self.override_values@.contains_key(k) && self.override_values@[k] != LoopTransform::Empty
        ||| exists|k: u32| #[trigger] self.sustained_values@.contains_key(k)
            && self.sustained_values@[k] != transform_or_empty(loop_collection.transforms@, k)
    }

    /// Whether flattening would change the loop.
    pub fn should_flatten(&self) -> (r: bool)
        requires
            self.well_formed(),
        ensures
            r == self.flatten_pending(current(self.loop_state@)),
    {
        broadcast use vstd::std_specs::hash::group_hash_axioms;
        let loop_collection = self.loop_state.get();
        let ghost sustained = self.sustained_values.iter().remaining();
        let mut is_sustained = false;
        for entry in it: self.sustained_values.iter()
            invariant
                it.seq() == sustained,
                forall|i: int| 0 <= i < sustained.len() ==> self.sustained_values@.contains_key(*sustained[i].0)
                    && self.sustained_values@[*sustained[i].0] == *sustained[i].1,
                forall|k: u32| #[trigger] self.sustained_values@.contains_key(k) ==> sustained.contains((&k, &self.sustained_values@[k])),
                !is_sustained ==> forall|i: int| 0 <= i < it.index() ==> *sustained[i].1 == transform_or_empty(loop_collection.transforms@, *sustained[i].0),
                is_sustained ==> exists|k: u32| #[trigger] self.sustained_values@.contains_key(k)
                    && self.sustained_values@[k] != transform_or_empty(loop_collection.transforms@, k),
        {
            let (key, value) = entry;
            let in_loop = match loop_collection.transforms.get(*key) {
                Some(t) => t,
                None => LoopTransform::Empty,
            };
            if *value != in_loop {
                proof {
                    assert(self.sustained_values@.contains_key(*key));
                }
                is_sustained = true;
            }
        }
        proof {
            if !is_sustained {
                assert forall|k: u32| #[trigger] self.sustained_values@.contains_key(k)
                    implies self.sustained_values@[k] == transform_or_empty(loop_collection.transforms@, k) by {
                    assert(sustained.contains((&k, &self.sustained_values@[k])));
                    let i = choose|i: int| 0 <= i < sustained.len() && sustained[i] == (&k, &self.sustained_values@[k]);
                }
            }
        }
        let ghost overrides = self.override_values.iter().remaining();
        let mut is_overridden = false;
        for entry in it: self.override_values.iter()
            invariant
                it.seq() == overrides,
                forall|i: int| 0 <= i < overrides.len() ==> self.override_values@.contains_key(*overrides[i].0)
                    && self.override_values@[*overrides[i].0] == *overrides[i].1,
                forall|k: u32| #[trigger] self.override_values@.contains_key(k) ==> overrides.contains((&k, &self.override_values@[k])),
                !is_overridden ==> forall|i: int| 0 <= i < it.index() ==> *overrides[i].1 == LoopTransform::Empty,
                is_overridden ==> exists|k: u32| #[trigger] self.override_values@.contains_key(k)
                    && self.override_values@[k] != LoopTransform::Empty,
        {
            let (key, value) = entry;
            if *value != LoopTransform::Empty {
                proof {
                    assert(self.override_values@.contains_key(*key));
                }
                is_overridden = true;
            }
        }
        proof {
            if !is_overridden {
                assert forall|k: u32| #[trigger] self.override_values@.contains_key(k)
                    implies self.override_values@[k] == LoopTransform::Empty by {
                    assert(overrides.contains((&k, &self.override_values@[k])));
                    let i = choose|i: int| 0 <= i < overrides.len() && overrides[i] == (&k, &self.override_values@[k]);
                }
            }
        }
        self.selection_override != LoopTransform::Empty || is_overridden || is_sustained
    }
}


/// The sustained values after freezing: every held override that is not empty is
/// sustained, other sustained values stay.
pub open spec fn sustain_overrides(sustained: Map<u32, LoopTransform>, overrides: Map<u32, LoopTransform>) -> Map<u32, LoopTransform> {
    Map::new(
        |k: u32| sustained.contains_key(k) || (overrides.contains_key(k) && overrides[k] != LoopTransform::Empty),
        |k: u32| if overrides.contains_key(k) && overrides[k] != LoopTransform::Empty { overrides[k] } else { sustained[k] },
    )
}

/// Whether releasing freeze must carry a selected trigger's frozen transform back into
/// the loop: the frozen loop has one for it and it differs from the unfrozen loop.
pub open spec fn carried(frozen: LoopCollection, unfrozen: LoopCollection, selection: Set<u32>, k: u32) -> bool {
    selection.contains(k) && frozen.transforms@.contains_key(k)
        && lookup(frozen.transforms@, k) != lookup(unfrozen.transforms@, k)
}

/// The members of a set, each once.
pub fn set_members(set: &HashSet<u32>) -> (r: Vec<u32>)
    ensures
        r@.to_set() == set@,
        r@.no_duplicates(),
{
    broadcast use vstd::std_specs::hash::group_hash_axioms;
    let mut v: Vec<u32> = Vec::new();
    let ghost all = set.iter().remaining();
    for id in it: set.iter()
        invariant
            it.seq() == all,
            all.no_duplicates(),
            all.unref().to_set() == set@,
            v@ == all.unref().take(it.index() as int),
    {
        v.push(*id);
        proof {
            assert(all.unref().take(it.index() + 1) == all.unref().take(it.index() as int).push(*id));
        }
    }
    proof {
        assert(all.unref().take(all.len() as int) == all.unref());
        assert forall|i: int, j: int| 0 <= i < j < v@.len() implies v@[i] != v@[j] by {
            assert(all[i] != all[j]);
        }
    }
    v
}

impl LoopGrid {
    /// Freezes the loop (pressed) or releases it. Freezing sustains every held override;
    /// releasing drops what was set while frozen and the sustained values, except that
    /// the frozen transforms of selected triggers are kept as a new loop.
    pub fn freeze_button(&mut self, pressed: bool)
        requires
            old(self).well_formed(),
            old(self).loop_state@.undos.len() + old(self).loop_state@.redos.len() + 1 < crate::loop_state::HISTORY_LIMIT,
        ensures
            final(self).well_formed(),
            pressed ==> {
                &&& final(self).loop_state@ == model_freeze(old(self).loop_state@)
                &&& final(self).sustained_values@ == sustain_overrides(old(self).sustained_values@, old(self).override_values@)
            },
            !pressed ==> {
                let frozen = current(old(self).loop_state@);
                let unfrozen_model = model_unfreeze(old(self).loop_state@);
                let unfrozen = current(unfrozen_model);
                &&& final(self).sustained_values@.is_empty()
                &&& if exists|k: u32| #[trigger] carried(frozen, unfrozen, old(self).selection@, k) {
                    exists|c: LoopCollection| #![trigger model_set(unfrozen_model, c)] {
                        &&& c.length == unfrozen.length
                        &&& forall|k: u32| #![auto] lookup(c.transforms@, k) == if carried(frozen, unfrozen, old(self).selection@, k) {
                            lookup(frozen.transforms@, k)
                        } else {
                            lookup(unfrozen.transforms@, k)
                        }
                        &&& final(self).loop_state@ == model_set(unfrozen_model, c)
                    }
                } else {
                    final(self).loop_state@ == unfrozen_model
                }
            },
            *final(self) == (LoopGrid {
                loop_state: final(self).loop_state,
                sustained_values: final(self).sustained_values,
                ..*old(self)
            }),
    {
        broadcast use vstd::std_specs::hash::group_hash_axioms;
        if pressed {
            self.loop_state.freeze();
            let ghost overrides = self.override_values.iter().remaining();
            let ghost sustained0 = self.sustained_values@;
            let ghost g0 = *self;
            for entry in it: self.override_values.iter()
                invariant
                    *self == (LoopGrid { sustained_values: self.sustained_values, ..g0 }),
                    it.seq() == overrides,
                    overrides.no_duplicates(),
                    forall|i: int| 0 <= i < overrides.len() ==> self.override_values@.contains_key(*overrides[i].0)
                        && self.override_values@[*overrides[i].0] == *overrides[i].1,
                    forall|k: u32| #[trigger] self.override_values@.contains_key(k) ==> overrides.contains((&k, &self.override_values@[k])),
                    forall|k: u32| #[trigger] self.sustained_values@.contains_key(k) ==> bounded(self.sustained_values@[k]),
                    forall|k: u32| #[trigger] self.override_values@.contains_key(k) ==> bounded(self.override_values@[k]),
                    self.sustained_values@ == sustain_overrides(sustained0, Map::new(
                        |k: u32| exists|i: int| 0 <= i < it.index() && *overrides[i].0 == k,
                        |k: u32| self.override_values@[k],
                    )),
            {
                let (key, value) = entry;
                if *value != LoopTransform::Empty {
                    proof {
                        assert(self.override_values@.contains_key(*key));
                    }
                    self.sustained_values.insert(*key, *value);
                }
                proof {
                    let done = Map::new(
                        |k: u32| exists|i: int| 0 <= i < it.index() + 1 && *overrides[i].0 == k,
                        |k: u32| self.override_values@[k],
                    );
                    assert(self.sustained_values@ =~= sustain_overrides(sustained0, done)) by {
                        assert forall|k: u32| #![auto] done.contains_key(k) <==> (
                            (exists|i: int| 0 <= i < it.index() && *overrides[i].0 == k) || k == *key) by {
                            if k == *key {
                                assert(*overrides[it.index() as int].0 == k);
                            }
                            if done.contains_key(k) && k != *key {
                                let i = choose|i: int| 0 <= i < it.index() + 1 && *overrides[i].0 == k;
                                assert(i < it.index());
                            }
                        }
                    }
                }
            }
            proof {
                let done = Map::new(
                    |k: u32| exists|i: int| 0 <= i < overrides.len() && *overrides[i].0 == k,
                    |k: u32| self.override_values@[k],
                );
                assert(done =~= old(self).override_values@) by {
                    assert forall|k: u32| done.contains_key(k) <==> old(self).override_values@.contains_key(k) by {
                        if old(self).override_values@.contains_key(k) {
                            assert(overrides.contains((&k, &self.override_values@[k])));
                            let i = choose|i: int| 0 <= i < overrides.len() && overrides[i] == (&k, &self.override_values@[k]);
                            assert(*overrides[i].0 == k);
                        }
                    }
                }
            }
        } else {
            let frozen_state = self.loop_state.get().clone();
            self.loop_state.unfreeze();
            self.sustained_values.clear();
            let mut new_state = self.loop_state.get().clone();
            let ghost unfrozen = current(self.loop_state@);
            let mut updated = false;
            let selected = set_members(&self.selection);
            let mut i: usize = 0;
            while i < selected.len()
                invariant
                    i <= selected@.len(),
                    selected@.no_duplicates(),
                    selected@.to_set() == self.selection@,
                    new_state.length == unfrozen.length,
                    forall|k: u32| #![trigger lookup(new_state.transforms@, k)] lookup(new_state.transforms@, k) == if carried(frozen_state, unfrozen, self.selection@, k)
                        && selected@.take(i as int).contains(k) {
                        lookup(frozen_state.transforms@, k)
                    } else {
                        lookup(unfrozen.transforms@, k)
                    },
                    updated == exists|k: u32| #[trigger] carried(frozen_state, unfrozen, self.selection@, k)
                        && selected@.take(i as int).contains(k),
                decreases selected@.len() - i,
            {
                let id = selected[i];
                let value = frozen_state.transforms.get(id);
                let current_value = new_state.transforms.get(id);
                let ghost before = new_state.transforms@;
                let ghost was_updated = updated;
                let ghost t0 = selected@.take(i as int);
                let ghost t1 = selected@.take(i as int + 1);
                proof {
                    assert(t1 == t0.push(id));
                    assert(selected@.to_set().contains(id)) by {
                        assert(selected@[i as int] == id);
                    }
                    assert(!t0.contains(id)) by {
                        if t0.contains(id) {
                            let j = choose|j: int| 0 <= j < i && #[trigger] t0[j] == id;
                            assert(selected@[j] == selected@[i as int]);
                        }
                    }
                }
                if value != current_value {
                    if let Some(v) = value {
                        new_state.transforms.insert(id, v);
                        updated = true;
                    }
                }
                proof {
                    assert(self.selection@.contains(id));
                    assert(lookup(before, id) == lookup(unfrozen.transforms@, id));
                    assert(updated == (was_updated || carried(frozen_state, unfrozen, self.selection@, id)));
                    assert forall|k: u32| #![auto] t1.contains(k) <==> (t0.contains(k) || k == id) by {
                        if t1.contains(k) && k != id {
                            let j = choose|j: int| 0 <= j < i + 1 && #[trigger] t1[j] == k;
                            assert(t0[j] == k);
                        }
                        if k == id {
                            assert(t1[i as int] == k);
                        }
                    }
                    assert forall|k: u32| #![trigger lookup(new_state.transforms@, k)] lookup(new_state.transforms@, k) == if carried(frozen_state, unfrozen, self.selection@, k)
                        && selected@.take(i as int + 1).contains(k) {
                        lookup(frozen_state.transforms@, k)
                    } else {
                        lookup(unfrozen.transforms@, k)
                    } by {
                        if k != id {
                            assert(lookup(new_state.transforms@, k) == lookup(before, k));
                            assert(t1.contains(k) == t0.contains(k));
                        }
                    }
                    if carried(frozen_state, unfrozen, self.selection@, id) {
                        assert(carried(frozen_state, unfrozen, self.selection@, id) && t1.contains(id));
                    }
                    if was_updated {
                        let w = choose|k: u32| #[trigger] carried(frozen_state, unfrozen, self.selection@, k) && t0.contains(k);
                        assert(t1.contains(w));
                    }
                    if !updated {
                        assert forall|k: u32| #[trigger] carried(frozen_state, unfrozen, self.selection@, k) implies !t1.contains(k) by {
                            if t1.contains(k) && k != id {
                                assert(t0.contains(k));
                            }
                        }
                    }
                }
                i += 1;
            }
            proof {
                assert(selected@.take(selected@.len() as int) == selected@);
                assert forall|k: u32| #![auto] selected@.contains(k) <==> self.selection@.contains(k) by {
                    assert(selected@.to_set().contains(k) <==> selected@.contains(k));
                }
            }
            let ghost frozen = current(old(self).loop_state@);
            proof {
                assert(frozen_state.transforms@ == frozen.transforms@);
                assert forall|k: u32| #![auto] carried(frozen, unfrozen, self.selection@, k)
                    == carried(frozen_state, unfrozen, self.selection@, k) by {}
                assert forall|k: u32| #![trigger lookup(new_state.transforms@, k)] lookup(new_state.transforms@, k)
                    == if carried(frozen, unfrozen, self.selection@, k) {
                        lookup(frozen.transforms@, k)
                    } else {
                        lookup(unfrozen.transforms@, k)
                    } by {
                    if carried(frozen, unfrozen, self.selection@, k) {
                        assert(selected@.contains(k));
                    }
                }
                if updated {
                    let w = choose|k: u32| #[trigger] carried(frozen_state, unfrozen, self.selection@, k) && selected@.contains(k);
                    assert(carried(frozen, unfrozen, self.selection@, w));
                } else {
                    assert forall|k: u32| !#[trigger] carried(frozen, unfrozen, self.selection@, k) by {
                        if carried(frozen, unfrozen, self.selection@, k) {
                            assert(selected@.contains(k));
                        }
                    }
                }
            }
            if updated {
                self.loop_state.set(new_state);
            }
        }
    }
}

} // verus!
