use vstd::prelude::*;

use std::collections::HashMap;

verus! {

/// Presses softer than this count as no press: the pads are very sensitive.
pub const VELOCITY_THRESHOLD: u8 = 20;

/// How a pad press is played: at once, at the next step, repeated, or cycled.
#[derive(Debug, Copy, Clone, PartialEq, Eq, Structural)]
pub enum TriggerMode {
    Immediate,
    Quantized,
    Repeat,
    Cycle,
}

/// The number each trigger mode is stored under.
pub open spec fn trigger_mode_number(mode: TriggerMode) -> int {
    match mode {
        TriggerMode::Immediate => 0,
        TriggerMode::Quantized => 1,
        TriggerMode::Repeat => 2,
        TriggerMode::Cycle => 3,
    }
}

impl TriggerMode {
    /// The mode stored under `id`; unknown numbers mean `Immediate`.
    pub fn from_id(id: usize) -> (r: TriggerMode)
        ensures
            0 <= id <= 3 ==> trigger_mode_number(r) == id,
            id > 3 ==> r == TriggerMode::Immediate,
    {
        match id {
            1 => TriggerMode::Quantized,
            2 => TriggerMode::Repeat,
            3 => TriggerMode::Cycle,
            _ => TriggerMode::Immediate,
        }
    }

    /// The number this mode is stored under.
    pub fn to_id(&self) -> (r: usize)
        ensures
            r == trigger_mode_number(*self),
    {
        match self {
            TriggerMode::Immediate => 0,
            TriggerMode::Quantized => 1,
            TriggerMode::Repeat => 2,
            TriggerMode::Cycle => 3,
        }
    }
}

/// Buttons of another controller that act on the pads.
#[derive(Debug, Copy, Clone, PartialEq, Eq, Structural)]
pub enum LoopGridRemoteEvent {
    DoubleButton(bool),
    LoopButton(bool),
    SustainButton(bool),
}

/// A light colour of the pad controller's palette. `Unset` leaves the choice to a fallback.
#[derive(Debug, Copy, Clone, PartialEq, Eq, Structural, Hash)]
pub enum Light {
    Value(u8),
    Yellow,
    YellowMed,
    Lime,
    LimeLow,
    Purple,
    Green,
    GreenMed,
    GreenLow,
    GreenDark,
    Orange,
    OrangeMed,
    OrangeLow,
    Red,
    RedMed,
    RedLow,
    BlueDark,
    White,
    Off,
    Unset,
}

/// The palette number sent for a light.
pub open spec fn light_palette_value(light: Light) -> u8 {
    match light {
        Light::Yellow => 13,
        Light::YellowMed => 97,
        Light::Lime => 73,
        Light::LimeLow => 63,
        Light::Purple => 94,
        Light::Green => 17,
        Light::GreenMed => 76,
        Light::GreenLow => 18,
        Light::GreenDark => 35,
        Light::Orange => 96,
        Light::OrangeMed => 126,
        Light::OrangeLow => 105,
        Light::Red => 72,
        Light::RedMed => 120,
        Light::RedLow => 6,
        Light::BlueDark => 43,
        Light::White => 3,
        Light::Value(value) => value,
        _ => 0,
    }
}

impl Light {
    /// This light, or `value` when this one is unset.
    pub fn unwrap_or(self, value: Light) -> (r: Light)
        ensures
            r == (if self == Light::Unset { value } else { self }),
    {
        match self {
            Light::Unset => value,
            _ => self,
        }
    }

    /// The palette number sent for this light.
    pub fn value(&self) -> (r: u8)
        ensures
            r == light_palette_value(*self),
    {
        match self {
            Light::Yellow => 13,
            Light::YellowMed => 97,
            Light::Lime => 73,
            Light::LimeLow => 63,
            Light::Purple => 94,
            Light::Green => 17,
            Light::GreenMed => 76,
            Light::GreenLow => 18,
            Light::GreenDark => 35,
            Light::Orange => 96,
            Light::OrangeMed => 126,
            Light::OrangeLow => 105,
            Light::Red => 72,
            Light::RedMed => 120,
            Light::RedLow => 6,
            Light::BlueDark => 43,
            Light::White => 3,
            Light::Value(value) => *value,
            _ => 0,
        }
    }
}

/// The velocity played for a pad press: none below the threshold, above it the rest of
/// the range stretched over 0..127 and rounded down, at most 127.
pub open spec fn adjusted_velocity(v: int) -> int {
    if v < VELOCITY_THRESHOLD {
        0
    } else {
        let scaled = (v - VELOCITY_THRESHOLD) * 127 / (127 - VELOCITY_THRESHOLD);
        if scaled > 127 { 127 } else { scaled }
    }
}

/// The velocity played for a pad press.
pub fn adjust_velocity(input_velocity: u8) -> (r: u8)
    ensures
        r == adjusted_velocity(input_velocity as int),
{
    if input_velocity < VELOCITY_THRESHOLD {
        0
    } else {
        let range = (127 - VELOCITY_THRESHOLD) as u32;
        let pos = (input_velocity - VELOCITY_THRESHOLD) as u32;
        let scaled = pos * 127 / range;
        if scaled > 127 {
            127
        } else {
            scaled as u8
        }
    }
}

/// The note of pad `id`: eight rows of eight, top row first, notes counted from the
/// bottom left in tens per row.
pub open spec fn pad_note(id: int) -> int {
    (8 - id / 8) * 10 + id % 8 + 1
}

/// Both directions of the map between pad notes and pad ids.
pub fn get_grid_map() -> (r: (HashMap<u8, u32>, HashMap<u32, u8>))
    ensures
        forall|id: u32| r.1@.contains_key(id) <==> id < 64,
        forall|id: u32| #![auto] id < 64 ==> r.1@[id] == pad_note(id as int)
            && r.0@.contains_key(r.1@[id]) && r.0@[r.1@[id]] == id,
        forall|note: u8| #![auto] r.0@.contains_key(note) ==> r.0@[note] < 64
            && pad_note(r.0@[note] as int) == note,
{
    broadcast use vstd::std_specs::hash::group_hash_axioms;
    let mut midi_to_id: HashMap<u8, u32> = HashMap::new();
    let mut id_to_midi: HashMap<u32, u8> = HashMap::new();
    let mut r: u32 = 0;
    while r < 8
        invariant
            r <= 8,
            forall|i: u32| id_to_midi@.contains_key(i) <==> i < r * 8,
            forall|i: u32| #![auto] i < r * 8 ==> id_to_midi@[i] == pad_note(i as int)
                && midi_to_id@.contains_key(id_to_midi@[i]) && midi_to_id@[id_to_midi@[i]] == i,
            forall|note: u8| #![auto] midi_to_id@.contains_key(note) ==> midi_to_id@[note] < r * 8
                && pad_note(midi_to_id@[note] as int) == note,
        decreases 8 - r,
    {
        let mut c: u32 = 0;
        while c < 8
            invariant
                r < 8,
                c <= 8,
                forall|i: u32| id_to_midi@.contains_key(i) <==> i < r * 8 + c,
                forall|i: u32| #![auto] i < r * 8 + c ==> id_to_midi@[i] == pad_note(i as int)
                    && midi_to_id@.contains_key(id_to_midi@[i]) && midi_to_id@[id_to_midi@[i]] == i,
                forall|note: u8| #![auto] midi_to_id@.contains_key(note) ==> midi_to_id@[note] < r * 8 + c
                    && pad_note(midi_to_id@[note] as int) == note,
            decreases 8 - c,
        {
            let midi = ((8 - r) * 10 + c + 1) as u8;
            let id = r * 8 + c;
            proof {
                assert(id / 8 == r && id % 8 == c) by (nonlinear_arith)
                    requires
                        id == r * 8 + c,
                        c < 8,
                ;
                assert(pad_note(id as int) == midi);
                assert forall|i: u32| i < id implies pad_note(i as int) != midi by {
                    if pad_note(i as int) == midi {
                        assert(i / 8 == r && i % 8 == c) by (nonlinear_arith)
                            requires
                                (8 - i / 8) * 10 + i % 8 + 1 == (8 - r) * 10 + c + 1,
                                c < 8,
                                i < r * 8 + c,
                        ;
                        assert(i == 8 * (i / 8) + i % 8) by (nonlinear_arith);
                    }
                }
            }
            midi_to_id.insert(midi, id);
            id_to_midi.insert(id, midi);
            c += 1;
        }
        r += 1;
    }
    (midi_to_id, id_to_midi)
}


/// An input of the pad controller.
#[derive(Debug, Copy, Clone, PartialEq, Eq, Structural)]
pub enum LaunchpadEvent {
    Connected,
    LoopButton(bool),
    FlattenButton(bool),
    UndoButton(bool),
    RedoButton(bool),
    HoldButton(bool),
    SuppressButton(bool),
    ScaleButton(bool),
    ShiftButton(bool),
    SustainButton(bool),
    Nothing,
    LengthButton { id: usize, pressed: bool },
    RateButton { id: usize, pressed: bool },
    TriggerModeButton { id: usize, pressed: bool },
    BankButton { id: usize, pressed: bool },
    GridInput { id: u32, value: u8, stamp: u64 },
}

/// The place of a side or edge button of the pad controller among its row, if it is one:
/// the left column (controllers 80 down to 10), the right column (89 down to 19), the top
/// row (91 to 98), the bank buttons (5 to 8), the bottom row (101 to 108), the
/// trigger-mode buttons (1 to 4).
pub open spec fn left_place(b: int) -> Option<int> {
    if 10 <= b <= 80 && b % 10 == 0 { Some((80 - b) / 10) } else { None }
}

pub open spec fn right_place(b: int) -> Option<int> {
    if 19 <= b <= 89 && b % 10 == 9 { Some((89 - b) / 10) } else { None }
}

pub open spec fn run_place(b: int, first: int, count: int) -> Option<int> {
    if first <= b < first + count { Some(b - first) } else { None }
}

/// The top button at a place: loop, flatten, undo, redo, hold, suppress, scale, shift.
pub open spec fn top_event(place: int, pressed: bool) -> LaunchpadEvent {
    if place == 0 {
        LaunchpadEvent::LoopButton(pressed)
    } else if place == 1 {
        LaunchpadEvent::FlattenButton(pressed)
    } else if place == 2 {
        LaunchpadEvent::UndoButton(pressed)
    } else if place == 3 {
        LaunchpadEvent::RedoButton(pressed)
    } else if place == 4 {
        LaunchpadEvent::HoldButton(pressed)
    } else if place == 5 {
        LaunchpadEvent::SuppressButton(pressed)
    } else if place == 6 {
        LaunchpadEvent::ScaleButton(pressed)
    } else {
        LaunchpadEvent::ShiftButton(pressed)
    }
}

/// Whether a message of the pad controller has the bytes its kind is read from: a note
/// on or off, a pressure change or a control change needs three.
pub open spec fn launchpad_message_complete(m: Seq<u8>) -> bool {
    m.len() > 0 && ((m[0] == 144 || m[0] == 128 || m[0] == 160 || m[0] == 176) ==> m.len() >= 3)
}

/// The input a message of the pad controller stands for. A note on, note off or pressure
/// change on a pad of the map (`pads`, notes to pad ids) is that pad with its value; a
/// control change is a side or edge button, pressed when its value is above 0 (a bottom
/// button is a pad from 128 on with its value); controller 90 is the sustain button.
pub open spec fn launchpad_event(m: Seq<u8>, stamp: u64, pads: Map<u8, u32>) -> Option<LaunchpadEvent> {
    let kind = m[0];
    if kind == 144 || kind == 128 || kind == 160 {
        if pads.contains_key(m[1]) { Some(LaunchpadEvent::GridInput { id: pads[m[1]], value: m[2], stamp }) } else { None }
    } else if kind == 176 {
        let b = m[1] as int;
        let pressed = m[2] > 0;
        if left_place(b) is Some {
            Some(LaunchpadEvent::LengthButton { id: left_place(b)->0 as usize, pressed })
        } else if right_place(b) is Some {
            Some(LaunchpadEvent::RateButton { id: right_place(b)->0 as usize, pressed })
        } else if run_place(b, 91, 8) is Some {
            Some(top_event(run_place(b, 91, 8)->0, pressed))
        } else if run_place(b, 5, 4) is Some {
            Some(LaunchpadEvent::BankButton { id: run_place(b, 5, 4)->0 as usize, pressed })
        } else if run_place(b, 101, 8) is Some {
            Some(LaunchpadEvent::GridInput { id: (128 + run_place(b, 101, 8)->0) as u32, value: m[2], stamp })
        } else if run_place(b, 1, 4) is Some {
            Some(LaunchpadEvent::TriggerModeButton { id: run_place(b, 1, 4)->0 as usize, pressed })
        } else if b == 90 {
            Some(LaunchpadEvent::SustainButton(pressed))
        } else {
            None
        }
    } else {
        None
    }
}

/// Reads a message of the pad controller (see `launchpad_event`); `pads` maps notes to
/// pad ids (see `get_grid_map`).
pub fn decode_launchpad_message(message: &[u8], stamp: u64, pads: &HashMap<u8, u32>) -> (r: Option<LaunchpadEvent>)
    requires
        launchpad_message_complete(message@),
    ensures
        r == launchpad_event(message@, stamp, pads@),
{
    broadcast use vstd::std_specs::hash::group_hash_axioms;
    let kind = message[0];
    if kind == 144 || kind == 128 || kind == 160 {
        match pads.get(&message[1]) {
            Some(id) => Some(LaunchpadEvent::GridInput { id: *id, value: message[2], stamp }),
            None => None,
        }
    } else if kind == 176 {
        let b = message[1];
        let pressed = message[2] > 0;
        if 10 <= b && b <= 80 && b % 10 == 0 {
            Some(LaunchpadEvent::LengthButton { id: ((80 - b) / 10) as usize, pressed })
        } else if 19 <= b && b <= 89 && b % 10 == 9 {
            Some(LaunchpadEvent::RateButton { id: ((89 - b) / 10) as usize, pressed })
        } else if 91 <= b && b < 99 {
            let place = b - 91;
            Some(if place == 0 {
                LaunchpadEvent::LoopButton(pressed)
            } else if place == 1 {
                LaunchpadEvent::FlattenButton(pressed)
            } else if place == 2 {
                LaunchpadEvent::UndoButton(pressed)
            } else if place == 3 {
                LaunchpadEvent::RedoButton(pressed)
            } else if place == 4 {
                LaunchpadEvent::HoldButton(pressed)
            } else if place == 5 {
                LaunchpadEvent::SuppressButton(pressed)
            } else if place == 6 {
                LaunchpadEvent::ScaleButton(pressed)
            } else {
                LaunchpadEvent::ShiftButton(pressed)
            })
        } else if 5 <= b && b < 9 {
            Some(LaunchpadEvent::BankButton { id: (b - 5) as usize, pressed })
        } else if 101 <= b && b < 109 {
            Some(LaunchpadEvent::GridInput { id: 128 + (b - 101) as u32, value: message[2], stamp })
        } else if 1 <= b && b < 5 {
            Some(LaunchpadEvent::TriggerModeButton { id: (b - 1) as usize, pressed })
        } else if b == 90 {
            Some(LaunchpadEvent::SustainButton(pressed))
        } else {
            None
        }
    } else {
        None
    }
}


/// The top row of the pad controller, controllers 91 to 98, is loop, flatten, undo, redo,
/// hold, suppress, scale and shift, each pressed while its value is above 0.
pub proof fn law_top_row_buttons(value: u8, stamp: u64, pads: Map<u8, u32>)
    ensures
        launchpad_event(seq![176u8, 91u8, value], stamp, pads) == Some(LaunchpadEvent::LoopButton(value > 0)),
        launchpad_event(seq![176u8, 92u8, value], stamp, pads) == Some(LaunchpadEvent::FlattenButton(value > 0)),
        launchpad_event(seq![176u8, 93u8, value], stamp, pads) == Some(LaunchpadEvent::UndoButton(value > 0)),
        launchpad_event(seq![176u8, 94u8, value], stamp, pads) == Some(LaunchpadEvent::RedoButton(value > 0)),
        launchpad_event(seq![176u8, 95u8, value], stamp, pads) == Some(LaunchpadEvent::HoldButton(value > 0)),
        launchpad_event(seq![176u8, 96u8, value], stamp, pads) == Some(LaunchpadEvent::SuppressButton(value > 0)),
        launchpad_event(seq![176u8, 97u8, value], stamp, pads) == Some(LaunchpadEvent::ScaleButton(value > 0)),
        launchpad_event(seq![176u8, 98u8, value], stamp, pads) == Some(LaunchpadEvent::ShiftButton(value > 0)),
{
}

/// The side columns choose lengths (left, 80 at the top down to 10) and rates (right, 89
/// down to 19), the row below the grid are pads 128 to 135 with their value, controllers 1
/// to 4 choose trigger modes, 5 to 8 banks, and 90 is the sustain button.
pub proof fn law_side_buttons(row: u8, value: u8, stamp: u64, pads: Map<u8, u32>)
    requires
        row < 8,
    ensures
        launchpad_event(seq![176u8, (80 - 10 * row) as u8, value], stamp, pads)
            == Some(LaunchpadEvent::LengthButton { id: row as usize, pressed: value > 0 }),
        launchpad_event(seq![176u8, (89 - 10 * row) as u8, value], stamp, pads)
            == Some(LaunchpadEvent::RateButton { id: row as usize, pressed: value > 0 }),
        launchpad_event(seq![176u8, (101 + row) as u8, value], stamp, pads)
            == Some(LaunchpadEvent::GridInput { id: (128 + row) as u32, value, stamp }),
        row < 4 ==> launchpad_event(seq![176u8, (1 + row) as u8, value], stamp, pads)
            == Some(LaunchpadEvent::TriggerModeButton { id: row as usize, pressed: value > 0 }),
        row < 4 ==> launchpad_event(seq![176u8, (5 + row) as u8, value], stamp, pads)
            == Some(LaunchpadEvent::BankButton { id: row as usize, pressed: value > 0 }),
        launchpad_event(seq![176u8, 90u8, value], stamp, pads) == Some(LaunchpadEvent::SustainButton(value > 0)),
{
}


/// Pads are read from note on (144), note off (128) and pressure (160) messages alike, as
/// the pad the note belongs to with the message's value; notes of no pad, and messages on
/// other statuses than these and control changes, are no input.
pub proof fn law_pad_messages(kind: u8, note: u8, value: u8, stamp: u64, pads: Map<u8, u32>)
    ensures
        (kind == 144 || kind == 128 || kind == 160) && pads.contains_key(note) ==> launchpad_event(
            seq![kind, note, value], stamp, pads) == Some(LaunchpadEvent::GridInput { id: pads[note], value, stamp }),
        (kind == 144 || kind == 128 || kind == 160) && !pads.contains_key(note) ==> launchpad_event(
            seq![kind, note, value], stamp, pads) is None,
        !(kind == 144 || kind == 128 || kind == 160 || kind == 176) ==> launchpad_event(seq![kind, note, value], stamp, pads)
            is None,
{
}

/// The pads' notes: the top left pad is note 81, notes rise by one to the right along a
/// row and fall by ten from one row to the next down, so the bottom right pad is note 18.
pub proof fn law_pad_note_layout(id: int)
    requires
        0 <= id < 64,
    ensures
        pad_note(0) == 81 && pad_note(7) == 88 && pad_note(56) == 11 && pad_note(63) == 18,
        id % 8 < 7 ==> pad_note(id + 1) == pad_note(id) + 1,
        id < 56 ==> pad_note(id + 8) == pad_note(id) - 10,
        11 <= pad_note(id) <= 88 && 1 <= pad_note(id) % 10 <= 8,
{
    assert((id + 8) / 8 == id / 8 + 1 && (id + 8) % 8 == id % 8);
}

/// Presses below the threshold play nothing, the hardest press plays 127, and a harder
/// press never plays softer.
pub proof fn law_velocity_curve(a: int, b: int)
    requires
        0 <= a <= b <= 127,
    ensures
        a < VELOCITY_THRESHOLD ==> adjusted_velocity(a) == 0,
        adjusted_velocity(127) == 127,
        0 <= adjusted_velocity(a) <= adjusted_velocity(b) <= 127,
{
    if a >= VELOCITY_THRESHOLD {
        assert((a - VELOCITY_THRESHOLD) * 127 <= (b - VELOCITY_THRESHOLD) * 127) by (nonlinear_arith)
            requires
                a <= b,
        ;
        vstd::arithmetic::div_mod::lemma_div_is_ordered((a - VELOCITY_THRESHOLD) * 127, (b - VELOCITY_THRESHOLD) * 127, 107);
        assert((b - VELOCITY_THRESHOLD) * 127 / 107 <= 127) by (nonlinear_arith)
            requires
                b <= 127,
                VELOCITY_THRESHOLD == 20,
        ;
    }
}

/// The palette numbers of the named lights; a plain value is sent as it is, and no light
/// (or an unset one) is 0.
pub proof fn law_light_palette(v: u8)
    ensures
        light_palette_value(Light::Yellow) == 13 && light_palette_value(Light::YellowMed) == 97,
        light_palette_value(Light::Lime) == 73 && light_palette_value(Light::LimeLow) == 63,
        light_palette_value(Light::Purple) == 94,
        light_palette_value(Light::Green) == 17 && light_palette_value(Light::GreenMed) == 76,
        light_palette_value(Light::GreenLow) == 18 && light_palette_value(Light::GreenDark) == 35,
        light_palette_value(Light::Orange) == 96 && light_palette_value(Light::OrangeMed) == 126,
        light_palette_value(Light::OrangeLow) == 105,
        light_palette_value(Light::Red) == 72 && light_palette_value(Light::RedMed) == 120,
        light_palette_value(Light::RedLow) == 6,
        light_palette_value(Light::BlueDark) == 43 && light_palette_value(Light::White) == 3,
        light_palette_value(Light::Value(v)) == v,
        light_palette_value(Light::Off) == 0 && light_palette_value(Light::Unset) == 0,
{
}

} // verus!
