use vstd::prelude::*;

use crate::chunk::{Coords, RepeatMode, Shape};
use crate::devices::cc_triggers::MidiTrigger;
use std::collections::HashMap;

verus! {

/// A MIDI port by name and a channel on it.
#[derive(Debug)]
pub struct MidiPortConfig {
    pub name: String,
    pub channel: u8,
}

impl MidiPortConfig {
    pub fn new(name: &str, channel: u8) -> (r: MidiPortConfig)
        ensures
            r.name@ == name@,
            r.channel == channel,
    {
        MidiPortConfig { name: name.to_string(), channel }
    }
}

/// A trigger id that a device also reports on a side channel.
#[derive(Debug, Copy, Clone, PartialEq, Eq, Structural)]
pub struct SidechainOutput {
    pub id: u32,
}

/// A chunk of the grid and the device it plays.
#[derive(Debug)]
pub struct ChunkConfig {
    pub coords: Coords,
    pub shape: Shape,
    pub color: u8,
    pub channel: Option<u32>,
    pub trigger_channels: Option<Vec<u32>>,
    pub repeat_mode: RepeatMode,
    pub device: DeviceConfig,
}

/// The device a chunk plays.
#[derive(Debug)]
pub enum DeviceConfig {
    Multi { devices: Vec<DeviceConfig> },
    MidiKeys {
        output: MidiPortConfig,
        offset_id: String,
        offset_wrap: bool,
        note_offset: i32,
        midi_offset: i8,
        velocity_map: Option<Vec<u8>>,
        octave_offset: i32,
        monophonic: bool,
    },
    OffsetChunk { id: String },
    PitchOffsetChunk { output: MidiPortConfig },
    RootSelect,
    ScaleDegreeToggle(ScaleDegree),
    MidiTriggers {
        output: MidiPortConfig,
        trigger_ids: Vec<u8>,
        velocity_map: Option<Vec<u8>>,
        sidechain_output: Option<SidechainOutput>,
    },
    MidiSlicer {
        output: MidiPortConfig,
        slicer_channel: u32,
        start_trigger_id: u8,
        trigger_count: u32,
        velocity_map: Option<Vec<u8>>,
    },
    CcSlicer { output: MidiPortConfig, slicer_channel: u32, cc: u32, velocity_map: Option<Vec<u8>> },
    CcTriggers { output: MidiPortConfig, velocity_map: Option<Vec<u8>>, triggers: Vec<MidiTrigger> },
    Sp404Mk2 { port_name: String, velocity_map: Option<Vec<u8>>, sidechain_output: Option<SidechainOutput> },
}

impl DeviceConfig {
    /// A chunk that shifts the offset named `id`.
    pub fn offset(id: &str) -> (r: DeviceConfig)
        ensures
            r matches DeviceConfig::OffsetChunk { id: i } && i@ == id@,
    {
        DeviceConfig::OffsetChunk { id: id.to_string() }
    }

    /// A chunk that plays several devices at once.
    pub fn multi(devices: Vec<DeviceConfig>) -> (r: DeviceConfig)
        ensures
            r == (DeviceConfig::Multi { devices }),
    {
        DeviceConfig::Multi { devices }
    }
}

/// A threshold on a controller value.
#[derive(Debug, Copy, Clone, PartialEq, Eq, Structural)]
pub enum TriggerCondition {
    Gt(u8),
    Lt(u8),
}

impl TriggerCondition {
    /// Whether the value passes the threshold (strictly).
    pub fn check(&self, value: u8) -> (r: bool)
        ensures
            r == match *self {
                TriggerCondition::Gt(v) => value > v,
                TriggerCondition::Lt(v) => value < v,
            },
    {
        match self {
            TriggerCondition::Gt(v) => value > *v,
            TriggerCondition::Lt(v) => value < *v,
        }
    }
}

/// What a modulation control drives. Pitch-bend defaults are held as 14-bit bend
/// positions (0 to 16383, centre 8192).
#[derive(Debug)]
pub enum Modulator {
    Cc(u8, u8),
    InvertCc(u8, u8),
    InvertMaxCc(u8, u8, u8),
    TriggerWhen(TriggerCondition, (u8, u8)),
    MaxCc(u8, u8, u8),
    PolarCcSwitch { cc_low: Option<u8>, cc_high: Option<u8>, cc_switch: Option<u8>, default: u8 },
    PitchBend(u16),
    Aftertouch(u8),
    PositivePitchBend(u16),
    Multi(Vec<Modulator>),
}

/// The modulators a modulator stands for: the parts of a combination, or itself.
pub open spec fn spec_all(m: Modulator) -> Seq<Modulator> {
    match m {
        Modulator::Multi(values) => values@,
        _ => seq![m],
    }
}

/// A scale degree that a toggle raises or lowers.
#[derive(Debug, Copy, Clone, PartialEq, Eq, Structural)]
pub enum ScaleDegree {
    Second,
    Third,
    Fourth,
    Fifth,
    Sixth,
    Seventh,
}

/// Major or minor quality of an interval (as a semitone shift: 0 or -1).
#[derive(Debug, Copy, Clone, PartialEq, Eq, Structural)]
pub enum Quality {
    Major,
    Minor,
}

/// Quality of a perfect interval (as a semitone shift: -1, 0 or 1).
#[derive(Debug, Copy, Clone, PartialEq, Eq, Structural)]
pub enum PerfectQuality {
    Diminished,
    Perfect,
    Augmented,
}

impl Quality {
    /// The semitone shift of the quality.
    pub fn shift(&self) -> (r: i32)
        ensures
            r == match *self {
                Quality::Major => 0int,
                Quality::Minor => -1int,
            },
    {
        match self {
            Quality::Major => 0,
            Quality::Minor => -1,
        }
    }
}

impl PerfectQuality {
    /// The semitone shift of the quality.
    pub fn shift(&self) -> (r: i32)
        ensures
            r == match *self {
                PerfectQuality::Diminished => -1int,
                PerfectQuality::Perfect => 0int,
                PerfectQuality::Augmented => 1int,
            },
    {
        match self {
            PerfectQuality::Diminished => -1,
            PerfectQuality::Perfect => 0,
            PerfectQuality::Augmented => 1,
        }
    }
}

impl Clone for Modulator {
    /// A copy: equal, but for the parts of a combination, which are cloned in turn.
    fn clone(&self) -> (r: Self)
        ensures
            !(*self is Multi) ==> r == *self,
            (*self is Multi) ==> (r is Multi && r->0@.len() == self->0@.len()),
        decreases self,
    {
        match self {
            Modulator::Multi(values) => {
                let mut parts: Vec<Modulator> = Vec::new();
                let mut i: usize = 0;
                while i < values.len()
                    invariant
                        *self == Modulator::Multi(*values),
                        i <= values@.len(),
                        parts@.len() == i,
                    decreases values@.len() - i,
                {
                    proof {
                        broadcast use vstd::std_specs::vec::group_vec_axioms;
                        assert(decreases_to!(*values => values[i as int]));
                        assert(decreases_to!(*self => self->0));
                        assert(self->0 == *values);
                        assert(decreases_to!(*self => values[i as int]));
                    }
                    parts.push(values[i].clone());
                    i = i + 1;
                }
                Modulator::Multi(parts)
            },
            Modulator::Cc(a, b) => Modulator::Cc(*a, *b),
            Modulator::InvertCc(a, b) => Modulator::InvertCc(*a, *b),
            Modulator::InvertMaxCc(a, b, c) => Modulator::InvertMaxCc(*a, *b, *c),
            Modulator::TriggerWhen(c, pair) => Modulator::TriggerWhen(*c, *pair),
            Modulator::MaxCc(a, b, c) => Modulator::MaxCc(*a, *b, *c),
            Modulator::PolarCcSwitch { cc_low, cc_high, cc_switch, default } => Modulator::PolarCcSwitch {
                cc_low: *cc_low,
                cc_high: *cc_high,
                cc_switch: *cc_switch,
                default: *default,
            },
            Modulator::PitchBend(p) => Modulator::PitchBend(*p),
            Modulator::Aftertouch(a) => Modulator::Aftertouch(*a),
            Modulator::PositivePitchBend(p) => Modulator::PositivePitchBend(*p),
        }
    }
}

impl Modulator {
    /// The modulators this one stands for: the parts of a combination (each a clone), or
    /// itself.
    pub fn all(&self) -> (r: Vec<Modulator>)
        ensures
            r@.len() == spec_all(*self).len(),
            !(*self is Multi) ==> r@ == seq![*self],
            forall|i: int| #![trigger r@[i]]
                0 <= i < r@.len() && (*self is Multi) ==> cloned::<Modulator>(spec_all(*self)[i], r@[i]),
    {
        match self {
            Modulator::Multi(values) => values.clone(),
            Modulator::Cc(a, b) => vec![Modulator::Cc(*a, *b)],
            Modulator::InvertCc(a, b) => vec![Modulator::InvertCc(*a, *b)],
            Modulator::InvertMaxCc(a, b, c) => vec![Modulator::InvertMaxCc(*a, *b, *c)],
            Modulator::TriggerWhen(c, pair) => vec![Modulator::TriggerWhen(*c, *pair)],
            Modulator::MaxCc(a, b, c) => vec![Modulator::MaxCc(*a, *b, *c)],
            Modulator::PolarCcSwitch { cc_low, cc_high, cc_switch, default } => vec![
                Modulator::PolarCcSwitch {
                    cc_low: *cc_low,
                    cc_high: *cc_high,
                    cc_switch: *cc_switch,
                    default: *default,
                },
            ],
            Modulator::PitchBend(p) => vec![Modulator::PitchBend(*p)],
            Modulator::Aftertouch(a) => vec![Modulator::Aftertouch(*a)],
            Modulator::PositivePitchBend(p) => vec![Modulator::PositivePitchBend(*p)],
        }
    }
}

/// A control of a modulation controller: a MIDI modulator on a port, or one of the
/// internal parameters (slicer offset and pitch, LFO, ducking, swing).
#[derive(Debug)]
pub enum ModulatorConfig {
    Unassigned,
    Midi { port: MidiPortConfig, rx_port: Option<MidiPortConfig>, modulator: Modulator },
    SlicerOffset(u32, u32, u8),
    SlicerPitch(u32, u32, u8),
    LfoAmount(usize, u8),
    LfoSpeed(u8),
    LfoHold(u8),
    LfoOffset(u8),
    LfoSkew(u8),
    DuckDecay(u8),
    DuckAmount(u8),
    Swing(u8),
}

/// A MIDI modulator sending on the named port and channel.
pub open spec fn midi_modulator_on(c: ModulatorConfig, port_name: Seq<char>, port_number: u8, modulator: Modulator) -> bool {
    c matches ModulatorConfig::Midi { port, rx_port: _, modulator: m } && port.name@ == port_name && port.channel
        == port_number && m == modulator
}

impl ModulatorConfig {
    /// A MIDI modulator that only sends.
    pub fn new(port_name: &str, port_number: u8, modulator: Modulator) -> (r: ModulatorConfig)
        ensures
            midi_modulator_on(r, port_name@, port_number, modulator),
            r matches ModulatorConfig::Midi { rx_port, .. } && rx_port is None,
    {
        ModulatorConfig::Midi { port: MidiPortConfig::new(port_name, port_number), rx_port: None, modulator }
    }

    /// A MIDI modulator that also follows what comes back on the same port and channel.
    pub fn rx(port_name: &str, port_number: u8, modulator: Modulator) -> (r: ModulatorConfig)
        ensures
            midi_modulator_on(r, port_name@, port_number, modulator),
            r matches ModulatorConfig::Midi { rx_port, .. } && rx_port matches Some(p) && p.name@ == port_name@
                && p.channel == port_number,
    {
        ModulatorConfig::Midi {
            port: MidiPortConfig::new(port_name, port_number),
            rx_port: Some(MidiPortConfig::new(port_name, port_number)),
            modulator,
        }
    }
}

/// A controller and its settings.
#[derive(Debug)]
pub enum ControllerConfig {
    Twister { port_name: String, mixer_port: MidiPortConfig, modulators: Vec<ModulatorConfig> },
    ModTwister {
        port_name: String,
        continuously_send: Vec<usize>,
        continuously_send_rr: Vec<usize>,
        modulators: Vec<ModulatorConfig>,
        channel_map: HashMap<usize, u32>,
    },
    Umi3 { port_name: String },
    ClockPulse { output: MidiPortConfig, divider: i32 },
    LaunchpadTempo { daw_port_name: String },
    Init { modulators: Vec<ModulatorConfig> },
    DuckOutput { modulators: Vec<ModulatorConfig> },
}

/// A whole setup: the chunks of the grid, the clock ports and the controllers.
#[derive(Debug)]
pub struct Config {
    pub chunks: Vec<ChunkConfig>,
    pub straight_trigger_ids: Vec<u32>,
    pub clock_input_port_name: String,
    pub clock_output_port_names: Vec<String>,
    pub keep_alive_port_names: Vec<String>,
    pub resync_port_names: Vec<String>,
    pub controllers: Vec<ControllerConfig>,
}

/// Where a chunk sits and how it plays: row, column, rows, columns, colour, channel
/// and repeat mode.
pub open spec fn placement(c: ChunkConfig) -> (u32, u32, u32, u32, u8, Option<u32>, RepeatMode) {
    (c.coords.row, c.coords.col, c.shape.rows, c.shape.cols, c.color, c.channel, c.repeat_mode)
}

/// The channels a chunk's triggers report on, as sequences.
pub open spec fn trigger_channels_of(c: ChunkConfig) -> Option<Seq<u32>> {
    match c.trigger_channels {
        Some(v) => Some(v@),
        None => None,
    }
}

/// Whether a chunk covers a grid cell.
pub open spec fn covers(c: ChunkConfig, row: int, col: int) -> bool {
    &&& c.coords.row <= row < c.coords.row + c.shape.rows
    &&& c.coords.col <= col < c.coords.col + c.shape.cols
}

/// An offset chunk with the given name.
pub open spec fn offset_named(d: DeviceConfig, name: Seq<char>) -> bool {
    d matches DeviceConfig::OffsetChunk { id } && id@ == name
}

/// Keys on the given output channel, following the named offset.
pub open spec fn keys_on(d: DeviceConfig, channel: u8, offset: Seq<char>, monophonic: bool) -> bool {
    d matches DeviceConfig::MidiKeys { output, offset_id, monophonic: m, .. } && output.channel == channel
        && offset_id@ == offset && m == monophonic
}

/// Controller-change triggers on the given output channel, sending the given triggers.
pub open spec fn triggers_on(d: DeviceConfig, channel: u8, triggers: Seq<MidiTrigger>) -> bool {
    d matches DeviceConfig::CcTriggers { output, triggers: t, .. } && output.channel == channel && t@ == triggers
}

/// The one device of a combination.
pub open spec fn only_device(d: DeviceConfig) -> Option<DeviceConfig> {
    match d {
        DeviceConfig::Multi { devices } => if devices@.len() == 1 {
            Some(devices@[0])
        } else {
            None
        },
        _ => None,
    }
}

/// Note triggers on a channel for consecutive notes from `first`.
pub open spec fn note_run(channel: u8, first: int, count: nat) -> Seq<MidiTrigger> {
    Seq::new(count, |i: int| MidiTrigger::NoteVelocity(channel, (first + i) as u8))
}

/// The port the default setup plays.
pub open spec fn rig_port() -> Seq<char> {
    "Univer Inter"@
}

/// Placements of the default setup's chunks, in the order they are scheduled.
pub open spec fn default_placements() -> Seq<(u32, u32, u32, u32, u8, Option<u32>, RepeatMode)> {
    seq![
        (0u32, 4u32, 1u32, 4u32, 15u8, None, RepeatMode::NoCycle),
        (11, 0, 1, 8, 12, None, RepeatMode::OnlyQuant),
        (12, 0, 1, 8, 55, None, RepeatMode::OnlyQuant),
        (13, 0, 1, 8, 43, None, RepeatMode::OnlyQuant),
        (14, 0, 2, 8, 35, None, RepeatMode::OnlyQuant),
        (16, 0, 1, 2, 95, None, RepeatMode::OnlyQuant),
        (16, 2, 1, 2, 95, None, RepeatMode::OnlyQuant),
        (16, 4, 1, 2, 95, None, RepeatMode::OnlyQuant),
        (16, 6, 1, 2, 95, None, RepeatMode::OnlyQuant),
        (1, 0, 2, 8, 10, Some(15u32), RepeatMode::NoCycle),
        (0, 0, 1, 4, 8, None, RepeatMode::NoCycle),
        (3, 0, 5, 4, 43, Some(5u32), RepeatMode::Global),
        (3, 4, 5, 4, 59, Some(4u32), RepeatMode::Global),
        (8, 0, 3, 8, 51, None, RepeatMode::Global),
    ]
}

/// The devices of the default setup's chunks, by the fields that tell them apart.
pub open spec fn default_devices(c: Seq<ChunkConfig>) -> bool {
    &&& c.len() == 14
    &&& only_device(c[0].device) matches Some(d) && triggers_on(d, 10, note_run(10, 36, 4))
    &&& only_device(c[1].device) matches Some(d) && offset_named(d, "poly"@)
    &&& offset_named(c[2].device, "bass"@)
    &&& offset_named(c[3].device, "lead"@)
    &&& c[4].device == DeviceConfig::RootSelect
    &&& c[5].device == DeviceConfig::ScaleDegreeToggle(ScaleDegree::Second)
    &&& c[6].device == DeviceConfig::ScaleDegreeToggle(ScaleDegree::Third)
    &&& c[7].device == DeviceConfig::ScaleDegreeToggle(ScaleDegree::Sixth)
    &&& c[8].device == DeviceConfig::ScaleDegreeToggle(ScaleDegree::Seventh)
    &&& only_device(c[9].device) matches Some(d) && triggers_on(
        d,
        3,
        note_run(3, 37, 15).push(MidiTrigger::NoteVelocity(3, 127)),
    )
    &&& only_device(c[10].device) matches Some(d) && triggers_on(d, 2, note_run(10, 40, 4))
    &&& keys_on(c[11].device, 15, "lead"@, true)
    &&& keys_on(c[12].device, 14, "bass"@, true)
    &&& only_device(c[13].device) matches Some(d) && keys_on(d, 7, "poly"@, false)
}

/// The channel the default modulation controller gives an encoder: the first two banks
/// to the channel of the part each encoder shapes, the last bank, in groups of four, to
/// channels 16 to 23.
pub open spec fn default_channel_for(k: usize) -> u32 {
    if k < 16 {
        if k % 4 == 0 {
            2u32
        } else if k % 4 == 1 {
            3u32
        } else if k % 4 == 2 {
            10u32
        } else {
            11u32
        }
    } else if k < 32 {
        if k == 19 {
            4u32
        } else if k == 23 {
            5u32
        } else if k == 27 || k == 31 {
            15u32
        } else {
            (12 + (k - 16) % 4) as u32
        }
    } else if k < 56 {
        (16 + (k - 48) % 4) as u32
    } else {
        (20 + (k - 56) % 4) as u32
    }
}

/// The encoder channels of the default modulation controller.
pub open spec fn default_channel_map() -> Map<usize, u32> {
    Map::new(|k: usize| (4 <= k < 32) || (48 <= k < 64), |k: usize| default_channel_for(k))
}

/// The chunk of the default setup that owns a grid cell.
pub open spec fn default_owner(row: int, col: int) -> int {
    if row == 0 {
        if col < 4 {
            10
        } else {
            0
        }
    } else if row <= 2 {
        9
    } else if row <= 7 {
        if col < 4 {
            11
        } else {
            12
        }
    } else if row <= 10 {
        13
    } else if row == 11 {
        1
    } else if row == 12 {
        2
    } else if row == 13 {
        3
    } else if row <= 15 {
        4
    } else {
        5 + col / 2
    }
}

/// Chunks laid out as the default setup's placements cover the seventeen rows of eight
/// cells exactly once, and nothing outside them.
pub proof fn lemma_default_layout_tiles(c: Seq<ChunkConfig>)
    requires
        c.len() == 14,
        forall|i: int| 0 <= i < 14 ==> #[trigger] placement(c[i]) == default_placements()[i],
    ensures
        forall|i: int, row: int, col: int|
            0 <= i < 14 && #[trigger] covers(c[i], row, col) ==> 0 <= row < 17 && 0 <= col < 8 && i
                == default_owner(row, col),
        forall|row: int, col: int|
            0 <= row < 17 && 0 <= col < 8 ==> 0 <= #[trigger] default_owner(row, col) < 14 && covers(
                c[default_owner(row, col)],
                row,
                col,
            ),
{
    assert forall|i: int, row: int, col: int|
        0 <= i < 14 && #[trigger] covers(c[i], row, col) implies 0 <= row < 17 && 0 <= col < 8 && i
        == default_owner(row, col) by {
        assert(placement(c[i]) == default_placements()[i]);
    }
    assert forall|row: int, col: int| 0 <= row < 17 && 0 <= col < 8 implies 0 <= default_owner(row, col) < 14
        && covers(c[default_owner(row, col)], row, col) by {
        let i = default_owner(row, col);
        assert(placement(c[i]) == default_placements()[i]);
    }
}


fn default_channel_map_exec() -> (r: HashMap<usize, u32>)
    ensures
        r@ == default_channel_map(),
{
    broadcast use vstd::std_specs::hash::group_hash_axioms;

    let mut channel_map: HashMap<usize, u32> = HashMap::new();
    // C1
    channel_map.insert(4, 2);
    channel_map.insert(8, 2);
    channel_map.insert(12, 2);
    // C2
    channel_map.insert(5, 3);
    channel_map.insert(9, 3);
    channel_map.insert(13, 3);
    // T3
    channel_map.insert(6, 10);
    channel_map.insert(10, 10);
    channel_map.insert(14, 10);
    // T4
    channel_map.insert(7, 11);
    channel_map.insert(11, 11);
    channel_map.insert(15, 11);
    // T5
    channel_map.insert(16 + 0, 12);
    channel_map.insert(16 + 4, 12);
    channel_map.insert(16 + 8, 12);
    channel_map.insert(16 + 12, 12);
    // T6
    channel_map.insert(16 + 1, 13);
    channel_map.insert(16 + 5, 13);
    channel_map.insert(16 + 9, 13);
    channel_map.insert(16 + 13, 13);
    // T7
    channel_map.insert(16 + 2, 14);
    channel_map.insert(16 + 6, 14);
    channel_map.insert(16 + 10, 14);
    channel_map.insert(16 + 14, 14);
    // T8
    channel_map.insert(16 + 11, 15);
    channel_map.insert(16 + 15, 15);
    // bass pitch
    channel_map.insert(16 + 3, 4);
    // synth pitch
    channel_map.insert(16 + 7, 5);
    assert forall|k: usize| #[trigger] channel_map@.contains_key(k) == (4 <= k < 32) && (channel_map@.contains_key(
        k,
    ) ==> channel_map@[k] == default_channel_for(k)) by {}

    let mut i: usize = 0;
    while i < 4
        invariant
            i <= 4,
            forall|k: usize| #[trigger]
                channel_map@.contains_key(k) == ((4 <= k < 32) || (48 <= k < 48 + i) || (52 <= k < 52 + i)),
            forall|k: usize| #[trigger] channel_map@.contains_key(k) ==> channel_map@[k] == default_channel_for(k),
        decreases 4 - i,
    {
        channel_map.insert(16 * 3 + i, 16 + i as u32);
        channel_map.insert(16 * 3 + i + 4, 16 + i as u32);
        i = i + 1;
    }
    let mut i: usize = 0;
    while i < 4
        invariant
            i <= 4,
            forall|k: usize| #[trigger]
                channel_map@.contains_key(k) == ((4 <= k < 32) || (48 <= k < 56) || (56 <= k < 56 + i) || (60
                    <= k < 60 + i)),
            forall|k: usize| #[trigger] channel_map@.contains_key(k) ==> channel_map@[k] == default_channel_for(k),
        decreases 4 - i,
    {
        channel_map.insert(16 * 3 + i + 8, 20 + i as u32);
        channel_map.insert(16 * 3 + i + 4 + 8, 20 + i as u32);
        i = i + 1;
    }
    assert(channel_map@ =~= default_channel_map());
    channel_map
}

fn scale_toggle(degree: ScaleDegree, col: u32) -> (r: ChunkConfig)
    ensures
        placement(r) == (16u32, col, 1u32, 2u32, 95u8, None::<u32>, RepeatMode::OnlyQuant),
        r.trigger_channels is None,
        r.device == DeviceConfig::ScaleDegreeToggle(degree),
{
    ChunkConfig {
        device: DeviceConfig::ScaleDegreeToggle(degree),
        coords: Coords::new(16, col),
        shape: Shape::new(1, 2),
        color: 95,  // purple
        channel: None,
        trigger_channels: None,
        repeat_mode: RepeatMode::OnlyQuant,
    }
}

fn offset_row(name: &str, row: u32, color: u8, in_multi: bool) -> (r: ChunkConfig)
    ensures
        placement(r) == (row, 0u32, 1u32, 8u32, color, None::<u32>, RepeatMode::OnlyQuant),
        r.trigger_channels is None,
        in_multi ==> (only_device(r.device) matches Some(d) && offset_named(d, name@)),
        !in_multi ==> offset_named(r.device, name@),
{
    let device = if in_multi {
        DeviceConfig::multi(vec![DeviceConfig::offset(name)])
    } else {
        DeviceConfig::offset(name)
    };
    ChunkConfig {
        coords: Coords::new(row, 0),
        shape: Shape::new(1, 8),
        color,
        channel: None,
        trigger_channels: None,
        repeat_mode: RepeatMode::OnlyQuant,
        device,
    }
}

fn root_select_rows() -> (r: ChunkConfig)
    ensures
        placement(r) == (14u32, 0u32, 2u32, 8u32, 35u8, None::<u32>, RepeatMode::OnlyQuant),
        r.trigger_channels is None,
        r.device == DeviceConfig::RootSelect,
{
    ChunkConfig {
        device: DeviceConfig::RootSelect,
        coords: Coords::new(6 + 8, 0),
        shape: Shape::new(2, 8),
        color: 35,  // soft green
        channel: None,
        trigger_channels: None,
        repeat_mode: RepeatMode::OnlyQuant,
    }
}

fn default_chunks(rig: &str) -> (r: Vec<ChunkConfig>)
    ensures
        r@.len() == 14,
        forall|i: int| 0 <= i < 14 ==> #[trigger] placement(r@[i]) == default_placements()[i],
        trigger_channels_of(r@[0]) == Some(seq![12u32, 13, 14, 15]),
        trigger_channels_of(r@[10]) == Some(seq![2u32, 3, 10, 11]),
        forall|i: int| 0 <= i < 14 && i != 0 && i != 10 ==> #[trigger] trigger_channels_of(r@[i]) is None,
        default_devices(r@),
{
    let kicks = vec![
        MidiTrigger::NoteVelocity(10, 36),
        MidiTrigger::NoteVelocity(10, 37),
        MidiTrigger::NoteVelocity(10, 38),
        MidiTrigger::NoteVelocity(10, 39),
    ];
    assert(kicks@ =~= note_run(10, 36, 4));
    let hats = vec![
        MidiTrigger::NoteVelocity(10, 40),
        MidiTrigger::NoteVelocity(10, 41),
        MidiTrigger::NoteVelocity(10, 42),
        MidiTrigger::NoteVelocity(10, 43),
    ];
    assert(hats@ =~= note_run(10, 40, 4));
    let slices = vec![
        MidiTrigger::NoteVelocity(3, 37),
        MidiTrigger::NoteVelocity(3, 38),
        MidiTrigger::NoteVelocity(3, 39),
        MidiTrigger::NoteVelocity(3, 40),
        MidiTrigger::NoteVelocity(3, 41),
        MidiTrigger::NoteVelocity(3, 42),
        MidiTrigger::NoteVelocity(3, 43),
        MidiTrigger::NoteVelocity(3, 44),
        MidiTrigger::NoteVelocity(3, 45),
        MidiTrigger::NoteVelocity(3, 46),
        MidiTrigger::NoteVelocity(3, 47),
        MidiTrigger::NoteVelocity(3, 48),
        MidiTrigger::NoteVelocity(3, 49),
        MidiTrigger::NoteVelocity(3, 50),
        MidiTrigger::NoteVelocity(3, 51),
        MidiTrigger::NoteVelocity(3, 127),
    ];
    assert(slices@ =~= note_run(3, 37, 15).push(MidiTrigger::NoteVelocity(3, 127)));
    // triggers B (scheduled early to better handle clip start sync)
    let triggers_b = ChunkConfig {
        device: DeviceConfig::multi(
            vec![
                DeviceConfig::CcTriggers {
                    velocity_map: Some(vec![80, 80, 100, 100, 100, 127]),
                    output: MidiPortConfig::new(rig, 10),
                    triggers: kicks,
                },
            ],
        ),
        coords: Coords::new(0, 4),
        shape: Shape::new(1, 4),
        color: 15,  // yellow
        channel: None,
        trigger_channels: Some(vec![12, 13, 14, 15]),
        repeat_mode: RepeatMode::NoCycle,
    };
    let slicer = ChunkConfig {
        device: DeviceConfig::multi(
            vec![
                DeviceConfig::CcTriggers {
                    velocity_map: Some(vec![80, 80, 100, 100, 100, 127]),
                    output: MidiPortConfig::new(rig, 3),
                    triggers: slices,
                },
            ],
        ),
        coords: Coords::new(1, 0),
        shape: Shape::new(2, 8),
        color: 10,  // orange
        channel: Some(15),
        trigger_channels: None,
        repeat_mode: RepeatMode::NoCycle,
    };
    let triggers_a = ChunkConfig {
        device: DeviceConfig::multi(
            vec![
                DeviceConfig::CcTriggers {
                    velocity_map: Some(vec![80, 80, 100, 100, 100, 127]),
                    output: MidiPortConfig::new(rig, 2),
                    triggers: hats,
                },
            ],
        ),
        coords: Coords::new(0, 0),
        shape: Shape::new(1, 4),
        color: 8,  // warm white
        channel: None,
        trigger_channels: Some(vec![2, 3, 10, 11]),
        repeat_mode: RepeatMode::NoCycle,
    };
    let lead = ChunkConfig {
        device: DeviceConfig::MidiKeys {
            output: MidiPortConfig::new(rig, 15),
            velocity_map: None,
            offset_wrap: false,
            monophonic: true,
            offset_id: String::from_str("lead"),
            note_offset: -4,
            octave_offset: -1,
            midi_offset: 0,
        },
        coords: Coords::new(3, 0),
        shape: Shape::new(5, 4),
        color: 43,
        channel: Some(5),
        trigger_channels: None,
        repeat_mode: RepeatMode::Global,
    };
    let bass = ChunkConfig {
        device: DeviceConfig::MidiKeys {
            output: MidiPortConfig::new(rig, 14),
            velocity_map: None,
            offset_wrap: false,
            offset_id: String::from_str("bass"),
            monophonic: true,
            note_offset: -4,
            octave_offset: -2,
            midi_offset: 0,
        },
        coords: Coords::new(3, 4),
        shape: Shape::new(5, 4),
        color: 59,  // pink
        channel: Some(4),
        trigger_channels: None,
        repeat_mode: RepeatMode::Global,
    };
    let poly = ChunkConfig {
        coords: Coords::new(0 + 8, 0),
        shape: Shape::new(3, 8),
        color: 51,
        channel: None,
        trigger_channels: None,
        repeat_mode: RepeatMode::Global,
        device: DeviceConfig::multi(
            vec![
                DeviceConfig::MidiKeys {
                    offset_wrap: true,
                    output: MidiPortConfig::new(rig, 7),
                    velocity_map: Some(vec![100, 100, 100, 100, 100, 100, 127]),
                    monophonic: false,
                    offset_id: String::from_str("poly"),
                    note_offset: -4,
                    octave_offset: -1,
                    midi_offset: 0,
                },
            ],
        ),
    };
    let chunks = vec![
        triggers_b,
        offset_row("poly", 3 + 8, 12, true),
        offset_row("bass", 4 + 8, 55, false),
        offset_row("lead", 5 + 8, 43, false),
        root_select_rows(),
        scale_toggle(ScaleDegree::Second, 0),
        scale_toggle(ScaleDegree::Third, 2),
        scale_toggle(ScaleDegree::Sixth, 4),
        scale_toggle(ScaleDegree::Seventh, 6),
        slicer,
        triggers_a,
        lead,
        bass,
        poly,
    ];
    proof {
        assert forall|i: int| 0 <= i < 14 implies #[trigger] placement(chunks@[i]) == default_placements()[i] by {}
        assert(default_devices(chunks@)) by {
            reveal_strlit("poly");
            reveal_strlit("bass");
            reveal_strlit("lead");
            let c = chunks@;
            assert(only_device(c[0].device) matches Some(d) && triggers_on(d, 10, note_run(10, 36, 4)));
            assert(only_device(c[1].device) matches Some(d) && offset_named(d, "poly"@));
            assert(offset_named(c[2].device, "bass"@));
            assert(offset_named(c[3].device, "lead"@));
            assert(only_device(c[9].device) matches Some(d) && triggers_on(
                d,
                3,
                note_run(3, 37, 15).push(MidiTrigger::NoteVelocity(3, 127)),
            ));
            assert(only_device(c[10].device) matches Some(d) && triggers_on(d, 2, note_run(10, 40, 4)));
            assert(keys_on(c[11].device, 15, "lead"@, true));
            assert(keys_on(c[12].device, 14, "bass"@, true));
            assert(only_device(c[13].device) matches Some(d) && keys_on(d, 7, "poly"@, false));
        }
    }
    chunks
}

/// Whether the modulators are those of the default modulation controller: global swing
/// first, then MIDI modulators on the rig port, then the slicer offsets and pitches.
pub open spec fn default_modulators_shape(m: Seq<ModulatorConfig>) -> bool {
    &&& m.len() == 64
    &&& m[0] == ModulatorConfig::Swing(0)
    &&& forall|i: int|
        1 <= i < 48 ==> (#[trigger] m[i] matches ModulatorConfig::Midi { port, .. } && port.name@ == rig_port())
    &&& forall|i: int| 48 <= i < 64 ==> (#[trigger] m[i] is SlicerOffset || m[i] is SlicerPitch)
}

fn default_modulators(rig: &str) -> (r: Vec<ModulatorConfig>)
    requires
        rig@ == rig_port(),
    ensures
        default_modulators_shape(r@),
{
    let modulators = vec![
        // row 1
        ModulatorConfig::Swing(0), // global shuffle
        ModulatorConfig::new(rig, 10, Modulator::Cc(10, 63)), // Delay Time
        ModulatorConfig::new(rig, 2, Modulator::Cc(9, 0)),    // mod a
        ModulatorConfig::new(rig, 2, Modulator::Cc(10, 0)),   // mod b
        // row 2
        ModulatorConfig::new(rig, 10, Modulator::Cc(31, 63)), // T1 Decay
        ModulatorConfig::new(rig, 10, Modulator::Cc(32, 63)), // T2 Decay
        ModulatorConfig::new(rig, 10, Modulator::Cc(33, 63)), // T3 Decay
        ModulatorConfig::new(rig, 10, Modulator::Cc(34, 63)), // T4 Decay
        // row 3
        ModulatorConfig::new(rig, 10, Modulator::Cc(21, 63)), // T1 Pitch
        ModulatorConfig::new(rig, 10, Modulator::Cc(22, 63)), // T2 Pitch
        ModulatorConfig::new(rig, 10, Modulator::Cc(23, 63)), // T3 Pitch
        ModulatorConfig::new(rig, 10, Modulator::Cc(24, 63)), // T4 Pitch
        // row 4
        ModulatorConfig::new(rig, 10, Modulator::Cc(11, 100)), // T1 Volume
        ModulatorConfig::new(rig, 10, Modulator::Cc(12, 100)), // T2 Volume
        ModulatorConfig::new(rig, 10, Modulator::Cc(13, 100)), // T3 Volume
        ModulatorConfig::new(rig, 10, Modulator::Cc(14, 100)), // T4 Volume
        // row 1
        ModulatorConfig::new(rig, 10, Modulator::Cc(45, 63)), // T5 Stretch
        ModulatorConfig::new(rig, 10, Modulator::Cc(46, 63)), // T6 Stretch
        ModulatorConfig::new(rig, 15, Modulator::PitchBend(8192)), // bass pitch
        ModulatorConfig::new(rig, 14, Modulator::PitchBend(8192)), // lead pitch
        // row 2
        ModulatorConfig::new(rig, 10, Modulator::Cc(35, 0)), // T5 Start
        ModulatorConfig::new(rig, 10, Modulator::Cc(36, 0)), // T6 Start
        ModulatorConfig::new(rig, 10, Modulator::Cc(37, 64)), // T7 Filter
        ModulatorConfig::new(rig, 10, Modulator::Cc(38, 64)), // T8 Filter
        // row 3
        ModulatorConfig::new(rig, 10, Modulator::Cc(25, 63)), // T5 Pitch
        ModulatorConfig::new(rig, 10, Modulator::Cc(26, 63)), // T6 Pitch
        ModulatorConfig::new(rig, 10, Modulator::Cc(27, 63)), // T7 Pitch
        ModulatorConfig::new(rig, 10, Modulator::Cc(28, 63)), // T8 Pitch
        // row 4
        ModulatorConfig::new(rig, 10, Modulator::Cc(15, 100)), // T5 Volume
        ModulatorConfig::new(rig, 10, Modulator::Cc(16, 100)), // T6 Volume
        ModulatorConfig::new(rig, 10, Modulator::Cc(17, 100)), // T7 Volume
        ModulatorConfig::new(rig, 10, Modulator::Cc(18, 100)), // T8 Volume
        // L6 MIXER
        // row 1
        ModulatorConfig::new(rig, 11, Modulator::Cc(43, 0)), // Send A1
        ModulatorConfig::new(rig, 11, Modulator::Cc(44, 0)), // Send A2
        ModulatorConfig::new(rig, 11, Modulator::Cc(45, 0)), // Send A3
        ModulatorConfig::new(rig, 11, Modulator::Cc(46, 0)), // Send A4
        // row 2
        ModulatorConfig::new(rig, 11, Modulator::Cc(53, 0)), // Send B1
        ModulatorConfig::new(rig, 11, Modulator::Cc(54, 0)), // Send B2
        ModulatorConfig::new(rig, 11, Modulator::Cc(55, 0)), // Send B3
        ModulatorConfig::new(rig, 11, Modulator::Cc(56, 0)), // Send B4
        // row 3
        ModulatorConfig::new(rig, 11, Modulator::Cc(73, 64)), // Pan 1
        ModulatorConfig::new(rig, 11, Modulator::Cc(74, 64)), // Pan 2
        ModulatorConfig::new(rig, 11, Modulator::Cc(75, 64)), // Pan 3
        ModulatorConfig::new(rig, 11, Modulator::Cc(76, 64)), // Pan 4
        // row 4
        ModulatorConfig::new(rig, 11, Modulator::Cc(12, 0)), // Reverb Time
        ModulatorConfig::new(rig, 11, Modulator::Cc(13, 0)), // Delay Time
        ModulatorConfig::new(rig, 11, Modulator::Cc(14, 64)), // Tone
        ModulatorConfig::new(rig, 10, Modulator::Cc(51, 64)), // DJ Filter
        // BITBOX SLICERS
        // row 1
        ModulatorConfig::SlicerOffset(0, 0, 0), // A1 Offset
        ModulatorConfig::SlicerOffset(0, 1, 32), // A2 Offset
        ModulatorConfig::SlicerOffset(0, 2, 64), // A3 Offset
        ModulatorConfig::SlicerOffset(0, 3, 96), // A4 Offset
        // row 2
        ModulatorConfig::SlicerPitch(0, 0, 63), // A1 Pitch
        ModulatorConfig::SlicerPitch(0, 1, 63), // A2 Pitch
        ModulatorConfig::SlicerPitch(0, 2, 63), // A3 Pitch
        ModulatorConfig::SlicerPitch(0, 3, 63), // A4 Pitch
        // row 3
        ModulatorConfig::SlicerOffset(1, 0, 0), // B1 Offset
        ModulatorConfig::SlicerOffset(1, 1, 42), // B2 Offset
        ModulatorConfig::SlicerOffset(1, 2, 84), // B3 Offset
        ModulatorConfig::SlicerOffset(1, 3, 0), // B4 Offset
        // row 4
        ModulatorConfig::SlicerPitch(1, 0, 63), // B1 Pitch
        ModulatorConfig::SlicerPitch(1, 1, 63), // B2 Pitch
        ModulatorConfig::SlicerPitch(1, 2, 63), // B3 Pitch
        ModulatorConfig::SlicerPitch(1, 3, 63), // B4 Pitch
    ];
    assert(default_modulators_shape(modulators@));
    modulators
}

fn encoder_range(from: usize, to: usize) -> (r: Vec<usize>)
    requires
        from <= to,
    ensures
        r@ == Seq::new((to - from) as nat, |i: int| (from + i) as usize),
{
    let mut r: Vec<usize> = Vec::new();
    let mut k = from;
    while k < to
        invariant
            from <= k <= to,
            r@ == Seq::new((k - from) as nat, |i: int| (from + i) as usize),
        decreases to - k,
    {
        r.push(k);
        k = k + 1;
        assert(r@ =~= Seq::new((k - from) as nat, |i: int| (from + i) as usize));
    }
    r
}

fn one_name(name: &str) -> (r: Vec<String>)
    ensures
        r@.len() == 1,
        r@[0]@ == name@,
{
    vec![String::from_str(name)]
}

/// The placements of the smaller setup's chunks, in the order they are scheduled.
pub open spec fn minimal_placements() -> Seq<(u32, u32, u32, u32, u8, Option<u32>, RepeatMode)> {
    seq![
        (11u32, 0u32, 1u32, 8u32, 12u8, None, RepeatMode::OnlyQuant),
        (12, 0, 1, 8, 62, None, RepeatMode::OnlyQuant),
        (13, 0, 1, 8, 94, None, RepeatMode::OnlyQuant),
        (14, 0, 2, 8, 35, None, RepeatMode::OnlyQuant),
        (16, 0, 1, 2, 95, None, RepeatMode::OnlyQuant),
        (16, 2, 1, 2, 95, None, RepeatMode::OnlyQuant),
        (16, 4, 1, 2, 95, None, RepeatMode::OnlyQuant),
        (16, 6, 1, 2, 95, None, RepeatMode::OnlyQuant),
        (0, 0, 2, 8, 9, Some(1u32), RepeatMode::Global),
        (2, 0, 6, 4, 15, Some(4u32), RepeatMode::Global),
        (2, 0, 6, 8, 51, Some(5u32), RepeatMode::Global),
        (8, 0, 3, 8, 11, Some(6u32), RepeatMode::Global),
    ]
}

/// The devices of the smaller setup's chunks, by the fields that tell them apart.
pub open spec fn minimal_devices(c: Seq<ChunkConfig>) -> bool {
    &&& c.len() == 12
    &&& only_device(c[0].device) matches Some(d) && offset_named(d, "ext"@)
    &&& offset_named(c[1].device, "bass"@)
    &&& offset_named(c[2].device, "keys"@)
    &&& c[3].device == DeviceConfig::RootSelect
    &&& c[4].device == DeviceConfig::ScaleDegreeToggle(ScaleDegree::Second)
    &&& c[5].device == DeviceConfig::ScaleDegreeToggle(ScaleDegree::Third)
    &&& c[6].device == DeviceConfig::ScaleDegreeToggle(ScaleDegree::Sixth)
    &&& c[7].device == DeviceConfig::ScaleDegreeToggle(ScaleDegree::Seventh)
    &&& c[8].device matches DeviceConfig::Sp404Mk2 { port_name, velocity_map, sidechain_output }
        && port_name@ == "SP-404MKII"@ && sidechain_output is None && velocity_map is Some
        && velocity_map->0@ == seq![10u8, 20, 30, 40, 50, 60, 70, 70, 70, 90, 100]
    &&& keys_on(c[9].device, 14, "bass"@, true)
    &&& keys_on(c[10].device, 7, "keys"@, false)
    &&& only_device(c[11].device) matches Some(d) && keys_on(d, 16, "ext"@, true)
}

fn minimal_chunks(rig: &str) -> (r: Vec<ChunkConfig>)
    ensures
        r@.len() == 12,
        forall|i: int| 0 <= i < 12 ==> #[trigger] placement(r@[i]) == minimal_placements()[i],
        forall|i: int| 0 <= i < 12 ==> #[trigger] trigger_channels_of(r@[i]) is None,
        minimal_devices(r@),
{
    let sp404_port_name = "SP-404MKII";  // drums
    let samples = ChunkConfig {
        device: DeviceConfig::Sp404Mk2 {
            port_name: String::from_str(sp404_port_name),
            velocity_map: Some(vec![10, 20, 30, 40, 50, 60, 70, 70, 70, 90, 100]),
            sidechain_output: None,
        },
        coords: Coords::new(0, 0),
        shape: Shape::new(2, 8),
        color: 9,  // orange
        channel: Some(1),
        trigger_channels: None,
        repeat_mode: RepeatMode::Global,
    };
    let bass = ChunkConfig {
        device: DeviceConfig::MidiKeys {
            output: MidiPortConfig::new(rig, 14),
            velocity_map: None,
            offset_wrap: false,
            monophonic: true,
            offset_id: String::from_str("bass"),
            note_offset: -4,
            octave_offset: -1,
            midi_offset: 0,
        },
        coords: Coords::new(2, 0),
        shape: Shape::new(6, 4),
        color: 15,  // blue
        channel: Some(4),
        trigger_channels: None,
        repeat_mode: RepeatMode::Global,
    };
    let keys = ChunkConfig {
        device: DeviceConfig::MidiKeys {
            output: MidiPortConfig::new(rig, 7),
            velocity_map: None,
            offset_wrap: false,
            offset_id: String::from_str("keys"),
            monophonic: false,
            note_offset: -4,
            octave_offset: -2,
            midi_offset: 0,
        },
        coords: Coords::new(2, 0),
        shape: Shape::new(6, 8),
        color: 51,  // pink
        channel: Some(5),
        trigger_channels: None,
        repeat_mode: RepeatMode::Global,
    };
    let chromatic = ChunkConfig {
        coords: Coords::new(0 + 8, 0),
        shape: Shape::new(3, 8),
        color: 11,
        channel: Some(6),
        trigger_channels: None,
        repeat_mode: RepeatMode::Global,
        device: DeviceConfig::multi(
            vec![
                DeviceConfig::MidiKeys {
                    offset_wrap: true,
                    output: MidiPortConfig::new(sp404_port_name, 16),
                    velocity_map: None,
                    monophonic: true,
                    offset_id: String::from_str("ext"),
                    note_offset: -4,
                    octave_offset: -1,
                    midi_offset: 0,
                },
            ],
        ),
    };
    let chunks = vec![
        offset_row("ext", 3 + 8, 12, true),
        offset_row("bass", 4 + 8, 62, false),
        offset_row("keys", 5 + 8, 94, false),
        root_select_rows(),
        scale_toggle(ScaleDegree::Second, 0),
        scale_toggle(ScaleDegree::Third, 2),
        scale_toggle(ScaleDegree::Sixth, 4),
        scale_toggle(ScaleDegree::Seventh, 6),
        samples,
        bass,
        keys,
        chromatic,
    ];
    proof {
        assert forall|i: int| 0 <= i < 12 implies #[trigger] placement(chunks@[i]) == minimal_placements()[i] by {}
        assert(minimal_devices(chunks@)) by {
            reveal_strlit("ext");
            reveal_strlit("bass");
            reveal_strlit("keys");
            reveal_strlit("SP-404MKII");
        }
    }
    chunks
}

impl Config {
    /// The setup used on stage: fourteen chunks that tile the seventeen rows of the
    /// grid, the modulation controller with its encoder channels, a clock pulse and the
    /// pad controller's tempo mode.
    pub fn default() -> (r: Config)
        ensures
            r.chunks@.len() == 14,
            forall|i: int| 0 <= i < 14 ==> #[trigger] placement(r.chunks@[i]) == default_placements()[i],
            trigger_channels_of(r.chunks@[0]) == Some(seq![12u32, 13, 14, 15]),
            trigger_channels_of(r.chunks@[10]) == Some(seq![2u32, 3, 10, 11]),
            forall|i: int|
                0 <= i < 14 && i != 0 && i != 10 ==> #[trigger] trigger_channels_of(r.chunks@[i]) is None,
            default_devices(r.chunks@),
            forall|row: int, col: int|
                0 <= row < 17 && 0 <= col < 8 ==> 0 <= #[trigger] default_owner(row, col) < 14 && covers(
                    r.chunks@[default_owner(row, col)],
                    row,
                    col,
                ),
            forall|i: int, j: int, row: int, col: int|
                0 <= i < 14 && 0 <= j < 14 && #[trigger] covers(r.chunks@[i], row, col) && #[trigger] covers(
                    r.chunks@[j],
                    row,
                    col,
                ) ==> i == j,
            forall|i: int, row: int, col: int|
                0 <= i < 14 && #[trigger] covers(r.chunks@[i], row, col) ==> 0 <= row < 17 && 0 <= col < 8,
            r.straight_trigger_ids@ == seq![6u32],
            r.clock_input_port_name@ == "Launchpad Pro MK3"@,
            r.clock_output_port_names@.len() == 1,
            r.clock_output_port_names@[0]@ == rig_port(),
            r.resync_port_names@.len() == 1,
            r.resync_port_names@[0]@ == rig_port(),
            r.keep_alive_port_names@.len() == 0,
            r.controllers@.len() == 4,
            r.controllers@[0] matches ControllerConfig::Umi3 { port_name } && port_name@ == "Logidy UMI3"@,
            r.controllers@[1] matches ControllerConfig::ModTwister {
                port_name,
                continuously_send,
                continuously_send_rr,
                modulators,
                channel_map,
            } && port_name@ == "Midi Fighter Twister"@ && continuously_send@.len() == 0 && continuously_send_rr@
                == Seq::new(16, |i: int| (16 + i) as usize) && default_modulators_shape(modulators@)
                && channel_map@ == default_channel_map(),
            r.controllers@[2] matches ControllerConfig::ClockPulse { output, divider } && output.name@ == rig_port()
                && output.channel == 12 && divider == 6,
            r.controllers@[3] matches ControllerConfig::LaunchpadTempo { daw_port_name } && daw_port_name@
                == "Launchpad Pro MK3 PORT 3"@,
    {
        let rig_port_name = "Univer Inter";
        proof {
            reveal_strlit("Univer Inter");
        }
        let chunks = default_chunks(rig_port_name);
        proof {
            lemma_default_layout_tiles(chunks@);
        }
        let controllers = vec![
            ControllerConfig::Umi3 { port_name: String::from_str("Logidy UMI3") },
            ControllerConfig::ModTwister {
                port_name: String::from_str("Midi Fighter Twister"),
                continuously_send: Vec::new(),
                continuously_send_rr: encoder_range(16, 32),
                channel_map: default_channel_map_exec(),
                modulators: default_modulators(rig_port_name),
            },
            ControllerConfig::ClockPulse { output: MidiPortConfig::new(rig_port_name, 12), divider: 6 },
            ControllerConfig::LaunchpadTempo { daw_port_name: String::from_str("Launchpad Pro MK3 PORT 3") },
        ];
        Config {
            chunks,
            straight_trigger_ids: vec![Coords::id_from(0, 6)],
            clock_input_port_name: String::from_str("Launchpad Pro MK3"),
            clock_output_port_names: one_name(rig_port_name),
            resync_port_names: one_name(rig_port_name),
            keep_alive_port_names: Vec::new(),
            controllers,
        }
    }

    /// A smaller setup: a sampler, two keyboards sharing rows, the offsets and the scale
    /// toggles, with the foot controller and the pad controller's tempo mode.
    pub fn minimal() -> (r: Config)
        ensures
            r.chunks@.len() == 12,
            forall|i: int| 0 <= i < 12 ==> #[trigger] placement(r.chunks@[i]) == minimal_placements()[i],
            forall|i: int| 0 <= i < 12 ==> #[trigger] trigger_channels_of(r.chunks@[i]) is None,
            minimal_devices(r.chunks@),
            r.straight_trigger_ids@.len() == 0,
            r.clock_input_port_name@ == "Launchpad Pro MK3"@,
            r.clock_output_port_names@.len() == 1,
            r.clock_output_port_names@[0]@ == "Launchpad Pro MK3 PORT 2"@,
            r.resync_port_names@.len() == 1,
            r.resync_port_names@[0]@ == "Launchpad Pro MK3 PORT 2"@,
            r.keep_alive_port_names@.len() == 0,
            r.controllers@.len() == 2,
            r.controllers@[0] matches ControllerConfig::Umi3 { port_name } && port_name@ == "Logidy UMI3"@,
            r.controllers@[1] matches ControllerConfig::LaunchpadTempo { daw_port_name } && daw_port_name@
                == "Launchpad Pro MK3 PORT 3"@,
    {
        let rig_port_name = "Launchpad Pro MK3 PORT 2";
        Config {
            chunks: minimal_chunks(rig_port_name),
            straight_trigger_ids: Vec::new(),
            clock_input_port_name: String::from_str("Launchpad Pro MK3"),
            clock_output_port_names: one_name(rig_port_name),
            resync_port_names: one_name(rig_port_name),
            keep_alive_port_names: Vec::new(),
            controllers: vec![
                ControllerConfig::Umi3 { port_name: String::from_str("Logidy UMI3") },
                ControllerConfig::LaunchpadTempo { daw_port_name: String::from_str("Launchpad Pro MK3 PORT 3") },
            ],
        }
    }
}

} // verus!
