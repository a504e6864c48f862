use vstd::prelude::*;
use vstd::std_specs::iter::IteratorSpec;

use crate::loop_event::LoopEvent;
use crate::loop_recorder::LoopRecorder;
use crate::loop_grid::{max_span, timing_ok};
use crate::midi_time::{fits, max_fractions, min_fractions, wrap, MidiTime};
use crate::output_value::OutputValue;
use std::collections::HashMap;

verus! {

/// What an encoder of the mixing controller controls.
#[derive(Debug, Copy, Clone, PartialEq, Eq, Structural, Hash)]
pub enum Control {
    ChannelVolume(u32),
    ChannelFilter(u32),
    ChannelReverb(u32),
    ChannelDelay(u32),
    ChannelFilterLfoAmount(u32),
    ChannelDuck(u32),
    Modulator(usize),
    DuckRelease,
    Swing,
    LfoRate,
    LfoSkew,
    Unassigned,
}

/// The control of encoder `id`: sixteen encoders a bank, two to a channel (the first of
/// each pair is even). Bank A: volume and filter; bank B: reverb and delay, its last pair
/// modulators 14 and 15; bank C: ducking and the filter's LFO amount, its first pair the
/// duck release and LFO rate; bank D: modulators 0 to 13, then swing and LFO skew.
pub open spec fn control_of(id: u32) -> Control {
    let page = id / 16;
    let control = id % 2;
    let channel = (id % 16) / 2;
    if page == 0 {
        if control == 0 { Control::ChannelVolume(channel) } else { Control::ChannelFilter(channel) }
    } else if page == 1 {
        if channel == 7 {
            Control::Modulator((7 * 2 + control) as usize)
        } else if control == 0 {
            Control::ChannelReverb(channel)
        } else {
            Control::ChannelDelay(channel)
        }
    } else if page == 2 {
        if channel == 0 {
            if control == 0 { Control::DuckRelease } else { Control::LfoRate }
        } else if control == 0 {
            Control::ChannelDuck(channel)
        } else {
            Control::ChannelFilterLfoAmount(channel)
        }
    } else if page == 3 {
        if channel == 7 {
            if control == 0 { Control::Swing } else { Control::LfoSkew }
        } else {
            Control::Modulator((channel * 2 + control) as usize)
        }
    } else {
        Control::Unassigned
    }
}

impl Control {
    /// The control of encoder `id` (see `control_of`).
    pub fn from_id(id: u32) -> (r: Control)
        ensures
            r == control_of(id),
    {
        let page = id / 16;
        let control = id % 2;
        let channel = (id % 16) / 2;
        if page == 0 {
            if control == 0 { Control::ChannelVolume(channel) } else { Control::ChannelFilter(channel) }
        } else if page == 1 {
            if channel == 7 {
                Control::Modulator((7 * 2 + control) as usize)
            } else if control == 0 {
                Control::ChannelReverb(channel)
            } else {
                Control::ChannelDelay(channel)
            }
        } else if page == 2 {
            if channel == 0 {
                if control == 0 { Control::DuckRelease } else { Control::LfoRate }
            } else if control == 0 {
                Control::ChannelDuck(channel)
            } else {
                Control::ChannelFilterLfoAmount(channel)
            }
        } else if page == 3 {
            if channel == 7 {
                if control == 0 { Control::Swing } else { Control::LfoSkew }
            } else {
                Control::Modulator((channel * 2 + control) as usize)
            }
        } else {
            Control::Unassigned
        }
    }
}

/// The encoder of a control, if one has it: the inverse of `control_of` on the 64
/// encoders.
pub fn get_control_id(control: Control) -> (r: Option<u32>)
    ensures
        r matches Some(id) ==> id < 64 && control_of(id) == control,
        r is None ==> forall|id: u32| id < 64 ==> control_of(id) != control,
{
    let mut id: u32 = 0;
    while id < 64
        invariant
            id <= 64,
            forall|k: u32| k < id ==> control_of(k) != control,
        decreases 64 - id,
    {
        if Control::from_id(id) == control {
            return Some(id);
        }
        id = id + 1;
    }
    None
}

/// Every encoder has its own control: two encoders never share one.
pub proof fn law_controls_are_distinct(a: u32, b: u32)
    requires
        a < 64,
        b < 64,
        control_of(a) == control_of(b),
        control_of(a) != Control::Unassigned,
    ensures
        a == b,
{
}

/// What a press (or release) of the freeze button does to the frozen and cueing flags:
/// a press freezes, a second press cues, a third goes back to frozen; a release
/// unfreezes unless values are cued.
pub open spec fn freeze_step(pressed: bool, frozen: bool, cueing: bool, has_cued: bool) -> (bool, bool) {
    if pressed {
        if cueing {
            (frozen, false)
        } else if frozen {
            (frozen, true)
        } else {
            (true, cueing)
        }
    } else if !has_cued {
        (false, cueing)
    } else {
        (frozen, cueing)
    }
}

/// The frozen and cueing flags after a press or release of the freeze button.
pub fn freeze_button(pressed: bool, frozen: bool, cueing: bool, has_cued: bool) -> (r: (bool, bool))
    ensures
        r == freeze_step(pressed, frozen, cueing, has_cued),
{
    if pressed {
        if cueing {
            (frozen, false)
        } else if frozen {
            (frozen, true)
        } else {
            (true, cueing)
        }
    } else if !has_cued {
        (false, cueing)
    } else {
        (frozen, cueing)
    }
}

/// The ring animation an encoder shows: 61 while it holds a cued value, 15 while cueing,
/// 59 while frozen, 13 while its control loops, else 0.
pub open spec fn ring_animation(has_cued_value: bool, cueing: bool, frozen: bool, looping: bool) -> u8 {
    if has_cued_value {
        61
    } else if cueing {
        15
    } else if frozen {
        59
    } else if looping {
        13
    } else {
        0
    }
}

/// The messages that refresh encoder `id`: its value (the cued one while cueing, if any)
/// and its ring animation.
pub fn refresh_messages(id: u8, value: u8, cued_value: Option<u8>, cueing: bool, frozen: bool, looping: bool) -> (r: Vec<(u8, u8, u8)>)
    ensures
        r@ == seq![
            (176u8, id, match cued_value { Some(v) => v, None => value }),
            (181u8, id, ring_animation(cued_value is Some, cueing, frozen, looping)),
        ],
{
    let shown = match cued_value {
        Some(v) => v,
        None => value,
    };
    let ring: u8 = if cued_value.is_some() {
        61
    } else if cueing {
        15
    } else if frozen {
        59
    } else if looping {
        13
    } else {
        0
    };
    vec![(176, id, shown), (181, id, ring)]
}

/// A recorded stretch of a control that plays again and again.
#[derive(Debug, Copy, Clone, PartialEq, Eq, Structural)]
pub struct ControlLoop {
    pub offset: MidiTime,
    pub length: MidiTime,
}

/// The automation state of the mixing controller's encoders, by encoder id: the last
/// value of each, the loops that play, where recordings started, and (while cueing) the
/// values cued to take over on leaving the freeze.
pub struct ControlLanes {
    pub last_values: HashMap<u32, u8>,
    pub loops: HashMap<u32, ControlLoop>,
    pub record_start_times: HashMap<u32, MidiTime>,
    pub cued_values: Option<HashMap<u32, u8>>,
}

/// The cued values, as a map.
pub open spec fn cued_view(c: Option<HashMap<u32, u8>>) -> Option<Map<u32, u8>> {
    match c {
        Some(m) => Some(m@),
        None => None,
    }
}

impl ControlLanes {
    /// Nothing recorded, looped or cued.
    pub fn new() -> (r: ControlLanes)
        ensures
            r.last_values@.is_empty(),
            r.loops@.is_empty(),
            r.record_start_times@.is_empty(),
            r.cued_values is None,
    {
        ControlLanes {
            last_values: HashMap::new(),
            loops: HashMap::new(),
            record_start_times: HashMap::new(),
            cued_values: None,
        }
    }

    /// Whether a turn of encoder `id` at `last_pos` is taken: always, unless the encoder
    /// loops and its loop ends 8 ticks or less before `last_pos`.
    pub fn allows_change(&self, id: u32, last_pos: MidiTime) -> (r: bool)
        requires
            fits(last_pos@ - 8 * 256),
            self.loops@.contains_key(id) ==> fits(self.loops@[id].offset@ + self.loops@[id].length@),
        ensures
            r == (!self.loops@.contains_key(id)
                || self.loops@[id].offset@ + self.loops@[id].length@ < last_pos@ - 8 * 256),
    {
        broadcast use vstd::std_specs::hash::group_hash_axioms;
        match self.loops.get(&id) {
            Some(item) => item.offset.plus(item.length).is_before(last_pos.minus(MidiTime::from_ticks(8))),
            None => true,
        }
    }

    /// A new value of encoder `id`, turned by hand (`from_loop` false) or played by its
    /// loop. A turn by hand ends the encoder's loop unless cueing; while cueing it is only
    /// cued; the value is kept unless it was turned by hand while cueing. Returns whether
    /// the value is sent on (a loop's value always, a turn by hand unless cueing).
    pub fn event(&mut self, id: u32, value: u8, from_loop: bool, cueing: bool) -> (send: bool)
        ensures
            send == (from_loop || !cueing),
            final(self).loops@ == (if !from_loop && !cueing { old(self).loops@.remove(id) } else { old(self).loops@ }),
            cued_view(final(self).cued_values) == (match cued_view(old(self).cued_values) {
                Some(m) => if !from_loop && cueing { Some(m.insert(id, value)) } else { Some(m) },
                None => None,
            }),
            final(self).last_values@ == (if from_loop || !cueing { old(self).last_values@.insert(id, value) } else { old(self).last_values@ }),
            final(self).record_start_times@ == old(self).record_start_times@,
    {
        broadcast use vstd::std_specs::hash::group_hash_axioms;
        if !from_loop && !cueing {
            self.loops.remove(&id);
        }
        if !from_loop && cueing {
            match &mut self.cued_values {
                Some(cued) => {
                    cued.insert(id, value);
                },
                None => {},
            }
        }
        if from_loop || !cueing {
            self.last_values.insert(id, value);
        }
        from_loop || !cueing
    }

    /// The record button of encoder `id` at `last_pos`: a press notes where recording
    /// starts; a release after a press loops the recorded stretch, `quantized_length` (the
    /// recorded span quantized to a loop length) ending at `last_pos`, or ends the loop
    /// when that is shorter than 16 ticks.
    pub fn recording(&mut self, id: u32, recording: bool, last_pos: MidiTime, quantized_length: MidiTime)
        requires
            fits(last_pos@ - quantized_length@),
        ensures
            recording ==> final(self).record_start_times@ == old(self).record_start_times@.insert(id, last_pos)
                && final(self).loops@ == old(self).loops@,
            !recording ==> final(self).record_start_times@ == old(self).record_start_times@.remove(id),
            !recording && old(self).record_start_times@.contains_key(id) ==> final(self).loops@ == (
                if quantized_length@ < 16 * 256 {
                    old(self).loops@.remove(id)
                } else {
                    old(self).loops@.insert(id, ControlLoop { offset: final(self).loops@[id].offset, length: quantized_length })
                }),
            !recording && old(self).record_start_times@.contains_key(id) && quantized_length@ >= 16 * 256
                ==> final(self).loops@[id].offset@ == last_pos@ - quantized_length@,
            !recording && !old(self).record_start_times@.contains_key(id) ==> final(self).loops@ == old(self).loops@,
            final(self).last_values@ == old(self).last_values@,
            cued_view(final(self).cued_values) == cued_view(old(self).cued_values),
    {
        broadcast use vstd::std_specs::hash::group_hash_axioms;
        if recording {
            self.record_start_times.insert(id, last_pos);
        } else {
            let started = self.record_start_times.remove(&id);
            if started.is_some() {
                if quantized_length.is_before(MidiTime::from_ticks(16)) {
                    self.loops.remove(&id);
                } else {
                    self.loops.insert(id, ControlLoop { offset: last_pos.minus(quantized_length), length: quantized_length });
                }
            }
        }
    }
}


/// A value of a map, if it has one.
pub open spec fn value_at(m: Map<u32, u8>, id: u32) -> Option<u8> {
    if m.contains_key(id) { Some(m[id]) } else { None }
}

/// A message the encoder controller's loop handles: a turn by hand of encoder `id`, a
/// value played (by hand or by a loop), an encoder's record button (with the recorded
/// span quantized to a loop length), a press or release of a freeze button, a bank
/// chosen, or a clock window of `length` at `pos` (with the flag the grid raises to reset
/// automation).
#[derive(Debug, Copy, Clone, PartialEq, Eq, Structural)]
pub enum TwisterMessage {
    ControlChange { id: u32, value: u8 },
    Event { event: LoopEvent, from_loop: bool },
    Recording { id: u32, recording: bool, quantized_length: MidiTime },
    FreezeButton(bool),
    BankChange(u8),
    Schedule { pos: MidiTime, length: MidiTime, reset_automation: bool },
}

/// What the loop does in reply: events queued back to it, encoders whose value is sent
/// on, encoders redrawn (all of them when `refresh_all`), and messages to the controller.
pub struct TwisterActions {
    pub events: Vec<(LoopEvent, bool)>,
    pub sends: Vec<u32>,
    pub refresh: Vec<u32>,
    pub refresh_all: bool,
    pub output: Vec<(u8, u8, u8)>,
}

/// The state of the encoder controller's loop: its lanes, what it recorded, the clock
/// position, the freeze and cue state in force and asked for by the buttons, the bank
/// chosen and the one shown, and what a freeze put aside.
pub struct TwisterState {
    pub lanes: ControlLanes,
    pub recorder: LoopRecorder,
    pub last_pos: MidiTime,
    pub frozen: bool,
    pub cueing: bool,
    pub want_frozen: bool,
    pub want_cueing: bool,
    pub bank: u8,
    pub shown_bank: u8,
    pub frozen_values: Option<HashMap<u32, u8>>,
    pub frozen_loops: Option<HashMap<u32, ControlLoop>>,
    /// Whether leaving cueing flips to the next page and back, to clear the rings'
    /// stalled animations (the modulator controller does).
    pub flip_pages_after_cue: bool,
}

/// Every loop is at least 16 ticks long and lies well inside the representable times.
pub open spec fn loops_fit(loops: Map<u32, ControlLoop>) -> bool {
    forall|id: u32| #[trigger] loops.contains_key(id) ==> loop_fits(loops[id])
}

/// A loop of at least 16 ticks, at most `max_span`, that starts at least `max_span` after
/// the earliest time and two before the latest.
pub open spec fn loop_fits(l: ControlLoop) -> bool {
    &&& 16 * 256 <= l.length@ <= max_span()
    &&& min_fractions() + max_span() <= l.offset@
    &&& l.offset@ + 2 * max_span() < max_fractions()
}

/// Where a loop plays at clock position `pos`: its start plus how far `pos` is into a turn
/// of it, the turns counted from the start's place in the cycle.
pub open spec fn playback_pos(l: ControlLoop, pos: int) -> int {
    l.offset@ + wrap(pos - wrap(l.offset@, l.length@), l.length@)
}

/// What the loops play in a clock window of `length` at `pos`: each recorded value of a
/// looping encoder within the window at its loop's playback position.
pub open spec fn loop_playback(loops: Map<u32, ControlLoop>, recorder: LoopRecorder, pos: int, length: int) -> Set<(LoopEvent, bool)> {
    Set::new(|p: (LoopEvent, bool)| p.1 && exists|id: u32| #![trigger loops[id]] {
        &&& loops.contains_key(id)
        &&& recorder.events(id).contains(p.0)
        &&& playback_pos(loops[id], pos) <= p.0.pos@ < playback_pos(loops[id], pos) + length
    })
}

impl TwisterState {
    /// The recorder is sound, the clock leaves room for the 8-tick guard, and every loop
    /// (kept or put aside) ends at a representable time.
    pub open spec fn well_formed(&self) -> bool {
        &&& self.recorder.well_formed()
        &&& fits(self.last_pos@ - 8 * 256)
        &&& loops_fit(self.lanes.loops@)
        &&& (self.frozen_loops matches Some(l) ==> loops_fit(l@))
    }

    /// Nothing recorded, frozen or cued, at position zero.
    pub fn new() -> (r: TwisterState)
        ensures
            r.well_formed(),
            r.lanes.last_values@.is_empty(),
            r.lanes.loops@.is_empty(),
            r.lanes.cued_values is None,
            r.last_pos@ == 0,
            !r.frozen && !r.cueing && !r.want_frozen && !r.want_cueing,
            r.bank == 0 && r.shown_bank == 0,
            r.frozen_values is None && r.frozen_loops is None,
            !r.flip_pages_after_cue,
    {
        TwisterState {
            lanes: ControlLanes::new(),
            recorder: LoopRecorder::new(),
            last_pos: MidiTime::zero(),
            frozen: false,
            cueing: false,
            want_frozen: false,
            want_cueing: false,
            bank: 0,
            shown_bank: 0,
            frozen_values: None,
            frozen_loops: None,
            flip_pages_after_cue: false,
        }
    }

    /// How long encoder `id` has been recording, if it is: what the caller quantizes to a
    /// loop length for its release.
    pub fn recording_span(&self, id: u32) -> (r: Option<MidiTime>)
        requires
            self.lanes.record_start_times@.contains_key(id) ==> fits(self.last_pos@ - self.lanes.record_start_times@[id]@),
        ensures
            r is Some <==> self.lanes.record_start_times@.contains_key(id),
            r matches Some(span) ==> span@ == self.last_pos@ - self.lanes.record_start_times@[id]@,
    {
        broadcast use vstd::std_specs::hash::group_hash_axioms;
        match self.lanes.record_start_times.get(&id) {
            Some(start) => {
                Some(self.last_pos.minus(*start))
            },
            None => None,
        }
    }
}

/// No action.
pub open spec fn no_actions(a: TwisterActions) -> bool {
    &&& a.events@.len() == 0
    &&& a.sends@.len() == 0
    &&& a.refresh@.len() == 0
    &&& !a.refresh_all
    &&& a.output@.len() == 0
}

fn none() -> (a: TwisterActions)
    ensures
        no_actions(a),
        a.events@ == Seq::<(LoopEvent, bool)>::empty(),
        a.sends@ == Seq::<u32>::empty(),
        a.refresh@ == Seq::<u32>::empty(),
        a.output@ == Seq::<(u8, u8, u8)>::empty(),
{
    let a = TwisterActions { events: Vec::new(), sends: Vec::new(), refresh: Vec::new(), refresh_all: false, output: Vec::new() };
    proof {
        assert(a.events@ =~= Seq::<(LoopEvent, bool)>::empty());
        assert(a.sends@ =~= Seq::<u32>::empty());
        assert(a.refresh@ =~= Seq::<u32>::empty());
        assert(a.output@ =~= Seq::<(u8, u8, u8)>::empty());
    }
    a
}

/// The loops put aside, as a map.
pub open spec fn loops_view(l: Option<HashMap<u32, ControlLoop>>) -> Option<Map<u32, ControlLoop>> {
    match l {
        Some(m) => Some(m@),
        None => None,
    }
}

/// The values in force after leaving a freeze: those put aside at the freeze (or the
/// current ones), with the cued values laid over them.
pub open spec fn thawed_values(aside: Option<Map<u32, u8>>, last: Map<u32, u8>, cued: Option<Map<u32, u8>>) -> Map<u32, u8> {
    let kept = match aside {
        Some(f) => f,
        None => last,
    };
    match cued {
        Some(c) => kept.union_prefer_right(c),
        None => kept,
    }
}

/// The loops in force after leaving a freeze: those put aside at the freeze, if any.
pub open spec fn thawed_loops(aside: Option<Map<u32, ControlLoop>>, loops: Map<u32, ControlLoop>) -> Map<u32, ControlLoop> {
    match aside {
        Some(l) => l,
        None => loops,
    }
}

/// The encoders whose value is sent on leaving a freeze: those without a loop whose value
/// put aside differs from the current one, and those with a cued value.
pub open spec fn thaw_sends(aside: Option<Map<u32, u8>>, last: Map<u32, u8>, loops: Map<u32, ControlLoop>, cued: Option<Map<u32, u8>>) -> Set<u32> {
    let changed = match aside {
        Some(f) => Set::new(|id: u32| id < 64 && !loops.contains_key(id) && value_at(f, id) != value_at(last, id)),
        None => Set::empty(),
    };
    match cued {
        Some(c) => changed + c.dom(),
        None => changed,
    }
}

impl TwisterState {
    /// What a message makes of the loop's state, and what it does in reply.
    pub open spec fn twister_step(&self, msg: TwisterMessage, after: TwisterState, a: TwisterActions) -> bool {
        match msg {
            TwisterMessage::FreezeButton(pressed) => {
                let (f, c) = freeze_step(pressed, self.want_frozen, self.want_cueing, self.lanes.cued_values is Some);
                &&& after == (TwisterState { want_frozen: f, want_cueing: c, ..*self })
                &&& no_actions(a)
            },
            TwisterMessage::BankChange(bank) => after == (TwisterState { bank, ..*self }) && no_actions(a),
            TwisterMessage::ControlChange { id, value } => {
                let taken = id < 64 && (!self.lanes.loops@.contains_key(id)
                    || self.lanes.loops@[id].offset@ + self.lanes.loops@[id].length@ < self.last_pos@ - 8 * 256);
                &&& after == *self
                &&& a.events@ == (if taken {
                    seq![(LoopEvent { id, value: OutputValue::On(value), pos: self.last_pos }, false)]
                } else {
                    Seq::empty()
                })
                &&& a.sends@.len() == 0 && a.refresh@.len() == 0 && !a.refresh_all && a.output@.len() == 0
            },
            TwisterMessage::Event { event, from_loop } => {
                let id = event.id;
                let value = match event.value { OutputValue::On(v) => v, OutputValue::Off => 0u8 };
                &&& after.lanes.loops@ == (if !from_loop && !self.cueing { self.lanes.loops@.remove(id) } else { self.lanes.loops@ })
                &&& cued_view(after.lanes.cued_values) == (match cued_view(self.lanes.cued_values) {
                    Some(m) => if !from_loop && self.cueing { Some(m.insert(id, value)) } else { Some(m) },
                    None => None,
                })
                &&& after.lanes.last_values@ == (if from_loop || !self.cueing {
                    self.lanes.last_values@.insert(id, value)
                } else {
                    self.lanes.last_values@
                })
                &&& after.lanes.record_start_times@ == self.lanes.record_start_times@
                &&& after.recorder.events(id).to_set() == self.recorder.events(id).to_set().insert(event)
                &&& forall|other: u32| other != id ==> #[trigger] after.recorder.events(other) == self.recorder.events(other)
                &&& after == (TwisterState { lanes: after.lanes, recorder: after.recorder, ..*self })
                &&& a.sends@ == (if from_loop || !self.cueing { seq![id] } else { Seq::empty() })
                &&& a.refresh@ == seq![id]
                &&& a.events@.len() == 0 && !a.refresh_all && a.output@.len() == 0
            },
            TwisterMessage::Recording { id, recording, quantized_length } => {
                &&& (recording ==> after.lanes.record_start_times@ == self.lanes.record_start_times@.insert(id, self.last_pos)
                    && after.lanes.loops@ == self.lanes.loops@)
                &&& (!recording ==> after.lanes.record_start_times@ == self.lanes.record_start_times@.remove(id))
                &&& (!recording && self.lanes.record_start_times@.contains_key(id) ==> after.lanes.loops@ == (
                    if quantized_length@ < 16 * 256 {
                        self.lanes.loops@.remove(id)
                    } else {
                        self.lanes.loops@.insert(id, ControlLoop {
                            offset: crate::midi_time::time_at(self.last_pos@ - quantized_length@),
                            length: quantized_length,
                        })
                    }))
                &&& (!recording && !self.lanes.record_start_times@.contains_key(id) ==> after.lanes.loops@ == self.lanes.loops@)
                &&& after.lanes.last_values@ == self.lanes.last_values@
                &&& cued_view(after.lanes.cued_values) == cued_view(self.lanes.cued_values)
                &&& after == (TwisterState { lanes: after.lanes, ..*self })
                &&& no_actions(a)
            },
            TwisterMessage::Schedule { pos, length, reset_automation } => self.scheduled(pos, length, reset_automation, after, a),
        }
    }

    /// A clock window at `pos`: a reset drops every loop; a newly chosen bank is shown; the
    /// freeze asked for by the buttons takes effect (freezing puts the values and loops
    /// aside; leaving brings them back, with the cued values over them, and sends what
    /// changed); the cueing asked for takes effect (starting to cue with no cued values
    /// starts an empty set). Every change of freeze or cueing, and a reset, redraws all.
    /// Then the loops in force queue what they play in the window (see `loop_playback`).
    pub open spec fn scheduled(&self, pos: MidiTime, length: MidiTime, reset_automation: bool, after: TwisterState, a: TwisterActions) -> bool {
        let loops0 = if reset_automation { Map::<u32, ControlLoop>::empty() } else { self.lanes.loops@ };
        let last = self.lanes.last_values@;
        let cued = cued_view(self.lanes.cued_values);
        let freeze_changes = self.want_frozen != self.frozen;
        let cue_changes = self.want_cueing != self.cueing;
        let fresh_cue = cue_changes && self.want_cueing;
        &&& after.last_pos == pos
        &&& after.shown_bank == self.bank
        &&& a.output@ == (if self.shown_bank != self.bank { seq![(179u8, self.bank, 127u8)] } else { Seq::empty() })
            + (if cue_changes && !self.want_cueing && self.flip_pages_after_cue {
                seq![(179u8, ((self.bank + 1) % 4) as u8, 127u8), (179u8, self.bank, 127u8)]
            } else {
                Seq::empty()
            })
        &&& after.flip_pages_after_cue == self.flip_pages_after_cue
        &&& a.refresh_all == (reset_automation || freeze_changes || cue_changes)
        &&& after.frozen == self.want_frozen
        &&& after.cueing == self.want_cueing
        &&& after.want_frozen == self.want_frozen && after.want_cueing == self.want_cueing && after.bank == self.bank
        &&& after.recorder == self.recorder
        &&& after.lanes.record_start_times@ == self.lanes.record_start_times@
        &&& if freeze_changes && !self.want_frozen {
            let loops1 = thawed_loops(loops_view(self.frozen_loops), loops0);
            &&& after.frozen_values is None && after.frozen_loops is None
            &&& after.lanes.loops@ == loops1
            &&& after.lanes.last_values@ == thawed_values(cued_view(self.frozen_values), last, cued)
            &&& a.sends@.to_set() == thaw_sends(cued_view(self.frozen_values), last, loops1, cued)
            &&& cued_view(after.lanes.cued_values) == (if fresh_cue { Some(Map::<u32, u8>::empty()) } else { None })
        } else {
            &&& (if freeze_changes {
                cued_view(after.frozen_values) == Some(last) && loops_view(after.frozen_loops) == Some(loops0)
            } else {
                after.frozen_values == self.frozen_values && after.frozen_loops == self.frozen_loops
            })
            &&& after.lanes.loops@ == loops0
            &&& after.lanes.last_values@ == last
            &&& a.sends@.len() == 0
            &&& cued_view(after.lanes.cued_values) == (if fresh_cue && cued is None { Some(Map::<u32, u8>::empty()) } else { cued })
        }
        &&& a.events@.to_set() == loop_playback(after.lanes.loops@, self.recorder, pos@, length@)
        &&& a.refresh@.len() == 0
    }

}

impl TwisterState {
    /// What a message needs: a release of a record button makes a loop that fits (see
    /// `loop_fits`), and a clock window is one that can be played (see `timing_ok`).
    pub open spec fn accepts(&self, msg: TwisterMessage) -> bool {
        match msg {
            TwisterMessage::Recording { recording, quantized_length, .. } => !recording ==> {
                &&& fits(self.last_pos@ - quantized_length@)
                &&& quantized_length@ >= 16 * 256 ==> loop_fits(ControlLoop {
                    offset: crate::midi_time::time_at(self.last_pos@ - quantized_length@),
                    length: quantized_length,
                })
            },
            TwisterMessage::Schedule { pos, length, .. } => timing_ok(pos, length) && 0 <= length@,
            _ => true,
        }
    }

    /// Computes `accepts`.
    pub fn accepts_message(&self, msg: TwisterMessage) -> (r: bool)
        ensures
            r == self.accepts(msg),
    {
        proof {
            crate::midi_time::lemma_view_fits(self.last_pos);
        }
        match msg {
            TwisterMessage::Recording { recording, quantized_length, .. } => {
                proof {
                    crate::midi_time::lemma_view_fits(quantized_length);
                }
                if recording {
                    return true;
                }
                let q = quantized_length.fractions() as i128;
                let offset = self.last_pos.fractions() as i128 - q;
                let span: i128 = 0x10_0000_0000;
                let min: i128 = -2147483648i128 * 256;
                let max: i128 = 2147483648i128 * 256;
                proof {
                    if min <= offset < max {
                        crate::midi_time::lemma_time_at(offset as int, quantized_length);
                    }
                }
                min <= offset && offset < max
                    && (q < 16 * 256 || (q <= span && min + span <= offset && offset + 2 * span < max))
            },
            TwisterMessage::Schedule { pos, length, .. } => {
                crate::loop_grid::timing_fits(pos, length) && length.fractions() >= 0
            },
            _ => true,
        }
    }

    /// Handles a message of the encoder controller's loop (see `twister_step`).
    pub fn step(&mut self, msg: TwisterMessage) -> (a: TwisterActions)
        requires
            old(self).well_formed(),
            old(self).accepts(msg),
        ensures
            final(self).well_formed(),
            old(self).twister_step(msg, *final(self), a),
    {
        match msg {
            TwisterMessage::FreezeButton(pressed) => {
                let (f, c) = freeze_button(pressed, self.want_frozen, self.want_cueing, self.lanes.cued_values.is_some());
                self.want_frozen = f;
                self.want_cueing = c;
                none()
            },
            TwisterMessage::BankChange(bank) => {
                self.bank = bank;
                none()
            },
            TwisterMessage::ControlChange { id, value } => {
                let mut a = none();
                if id < 64 {
                    proof {
                        crate::midi_time::lemma_view_fits(self.last_pos);
                    }
                    if self.lanes.allows_change(id, self.last_pos) {
                        a.events.push((LoopEvent { id, value: OutputValue::On(value), pos: self.last_pos }, false));
                    }
                }
                a
            },
            TwisterMessage::Event { event, from_loop } => self.play(event, from_loop),
            TwisterMessage::Recording { id, recording, quantized_length } => {
                let ghost before = self.lanes.loops@;
                if recording {
                    proof {
                        crate::midi_time::lemma_view_fits(self.last_pos);
                        assert(fits(self.last_pos@ - 0));
                    }
                    self.lanes.recording(id, recording, self.last_pos, MidiTime::zero());
                } else {
                    self.lanes.recording(id, recording, self.last_pos, quantized_length);
                }
                proof {
                    crate::midi_time::lemma_view_fits(self.last_pos);
                    assert forall|k: u32| #[trigger] self.lanes.loops@.contains_key(k) implies
                        fits(self.lanes.loops@[k].offset@ + self.lanes.loops@[k].length@) by {
                        if !before.contains_key(k) || before[k] != self.lanes.loops@[k] {
                            assert(k == id);
                        }
                    }
                    if !recording && old(self).lanes.record_start_times@.contains_key(id) && quantized_length@ >= 16 * 256 {
                        crate::midi_time::lemma_time_at(self.lanes.loops@[id].offset@, self.lanes.loops@[id].offset);
                    }
                }
                none()
            },
            TwisterMessage::Schedule { pos, length, reset_automation } => self.schedule(pos, length, reset_automation),
        }
    }

    /// A value played, by hand or by a loop (see `twister_step`).
    fn play(&mut self, event: LoopEvent, from_loop: bool) -> (a: TwisterActions)
        requires
            old(self).well_formed(),
        ensures
            final(self).well_formed(),
            old(self).twister_step(TwisterMessage::Event { event, from_loop }, *final(self), a),
    {
        let id = event.id;
        let value = event.value.value();
        let send = self.lanes.event(id, value, from_loop, self.cueing);
        self.recorder.add(event);
        let mut a = none();
        if send {
            a.sends.push(id);
        }
        a.refresh.push(id);
        proof {
            assert(a.refresh@ =~= seq![id]);
            if send {
                assert(a.sends@ =~= seq![id]);
            } else {
                assert(a.sends@ =~= Seq::<u32>::empty());
            }
            assert forall|k: u32| #[trigger] self.lanes.loops@.contains_key(k) implies
                fits(self.lanes.loops@[k].offset@ + self.lanes.loops@[k].length@) by {
                assert(old(self).lanes.loops@.contains_key(k));
            }
        }
        a
    }
}

/// Whether two optional values are the same.
fn same_value(a: Option<&u8>, b: Option<&u8>) -> (r: bool)
    ensures
        r == (match (a, b) {
            (Some(x), Some(y)) => *x == *y,
            (None, None) => true,
            _ => false,
        }),
{
    match (a, b) {
        (Some(x), Some(y)) => *x == *y,
        (None, None) => true,
        _ => false,
    }
}


/// The encoders below 64 without a loop whose value differs between two maps.
fn changed_values(aside: &HashMap<u32, u8>, last: &HashMap<u32, u8>, loops: &HashMap<u32, ControlLoop>) -> (r: Vec<u32>)
    ensures
        r@.to_set() == Set::new(|x: u32| x < 64 && !loops@.contains_key(x) && value_at(aside@, x) != value_at(last@, x)),
{
    broadcast use vstd::std_specs::hash::group_hash_axioms;
    let mut r: Vec<u32> = Vec::new();
    let mut id: u32 = 0;
    while id < 64
        invariant
            id <= 64,
            r@.to_set() == Set::new(|x: u32| x < id && !loops@.contains_key(x) && value_at(aside@, x) != value_at(last@, x)),
        decreases 64 - id,
    {
        let same = same_value(aside.get(&id), last.get(&id));
        let ghost before = r@;
        if !loops.contains_key(&id) && !same {
            r.push(id);
            proof {
                lemma_push_to_set(before, id);
            }
        }
        proof {
            assert(r@.to_set() =~= Set::new(|x: u32| x < id + 1 && !loops@.contains_key(x)
                && value_at(aside@, x) != value_at(last@, x)));
        }
        id = id + 1;
    }
    r
}

/// Pushing an item adds it to the set of items.
proof fn lemma_push_to_set(s: Seq<u32>, x: u32)
    ensures
        s.push(x).to_set() == s.to_set().insert(x),
{
    assert forall|y: u32| s.push(x).to_set().contains(y) == s.to_set().insert(x).contains(y) by {
        if s.push(x).contains(y) && y != x {
            let j = choose|j: int| 0 <= j < s.push(x).len() && s.push(x)[j] == y;
            assert(s[j] == y);
        }
        if s.contains(y) {
            let j = choose|j: int| 0 <= j < s.len() && s[j] == y;
            assert(s.push(x)[j] == y);
        }
        if y == x {
            assert(s.push(x)[s.len() as int] == y);
        }
    }
    assert(s.push(x).to_set() =~= s.to_set().insert(x));
}

/// Lays the cued values over the values, and queues a send of each.
fn lay_over(values: &mut HashMap<u32, u8>, cued: &HashMap<u32, u8>, sends: &mut Vec<u32>)
    ensures
        final(values)@ == old(values)@.union_prefer_right(cued@),
        final(sends)@.to_set() == old(sends)@.to_set() + cued@.dom(),
{
    broadcast use vstd::std_specs::hash::group_hash_axioms;
    let ghost values0 = values@;
    let ghost sends0 = sends@.to_set();
    let mut keys: Vec<u32> = Vec::new();
    let ghost all = cued.keys().remaining();
    for k in it: cued.keys()
        invariant
            it.seq() == all,
            all.unref().to_set() == cued@.dom(),
            keys@ == all.unref().take(it.index() as int),
    {
        keys.push(*k);
        proof {
            assert(all.unref().take(it.index() + 1) == all.unref().take(it.index() as int).push(*k));
        }
    }
    proof {
        assert(all.unref().take(all.len() as int) == all.unref());
    }
    let mut i: usize = 0;
    while i < keys.len()
        invariant
            i <= keys@.len(),
            keys@.to_set() == cued@.dom(),
            sends@.to_set() == sends0 + keys@.take(i as int).to_set(),
            values@ == values0.union_prefer_right(cued@.restrict(keys@.take(i as int).to_set())),
        decreases keys@.len() - i,
    {
        let k = keys[i];
        proof {
            assert(keys@.to_set().contains(k));
        }
        let v = *cued.get(&k).unwrap();
        let ghost before = sends@;
        values.insert(k, v);
        sends.push(k);
        proof {
            let prev = keys@.take(i as int);
            assert(keys@.take(i + 1) == prev.push(k));
            lemma_push_to_set(prev, k);
            lemma_push_to_set(before, k);
            assert(sends@.to_set() =~= sends0 + keys@.take(i + 1).to_set());
            assert(values@ =~= values0.union_prefer_right(cued@.restrict(keys@.take(i + 1).to_set())));
        }
        i = i + 1;
    }
    proof {
        assert(keys@.take(keys@.len() as int) == keys@);
        assert(cued@.restrict(cued@.dom()) =~= cued@);
    }
}


/// Pushing an item adds it to the set of items.
proof fn lemma_push_pair_to_set(s: Seq<(LoopEvent, bool)>, x: (LoopEvent, bool))
    ensures
        s.push(x).to_set() == s.to_set().insert(x),
{
    assert forall|y: (LoopEvent, bool)| s.push(x).to_set().contains(y) == s.to_set().insert(x).contains(y) by {
        if s.push(x).contains(y) && y != x {
            let j = choose|j: int| 0 <= j < s.push(x).len() && s.push(x)[j] == y;
            assert(s[j] == y);
        }
        if s.contains(y) {
            let j = choose|j: int| 0 <= j < s.len() && s[j] == y;
            assert(s.push(x)[j] == y);
        }
        if y == x {
            assert(s.push(x)[s.len() as int] == y);
        }
    }
    assert(s.push(x).to_set() =~= s.to_set().insert(x));
}

impl TwisterState {
    /// Leaves a freeze: brings back the loops and values put aside, lays the cued values
    /// over them, and queues a send of each encoder that changed.
    fn thaw(&mut self, a: &mut TwisterActions)
        requires
            old(self).well_formed(),
            old(a).sends@.len() == 0,
        ensures
            final(self).well_formed(),
            final(self).lanes.loops@ == thawed_loops(loops_view(old(self).frozen_loops), old(self).lanes.loops@),
            final(self).lanes.last_values@ == thawed_values(cued_view(old(self).frozen_values), old(self).lanes.last_values@,
                cued_view(old(self).lanes.cued_values)),
            final(a).sends@.to_set() == thaw_sends(cued_view(old(self).frozen_values), old(self).lanes.last_values@,
                final(self).lanes.loops@, cued_view(old(self).lanes.cued_values)),
            final(self).frozen_values is None && final(self).frozen_loops is None,
            final(self).lanes.cued_values is None,
            final(self).lanes.record_start_times@ == old(self).lanes.record_start_times@,
            final(self).recorder == old(self).recorder,
            final(self).last_pos == old(self).last_pos,
            final(self).frozen == old(self).frozen && final(self).cueing == old(self).cueing,
            final(self).want_frozen == old(self).want_frozen && final(self).want_cueing == old(self).want_cueing,
            final(self).bank == old(self).bank && final(self).shown_bank == old(self).shown_bank,
            final(self).flip_pages_after_cue == old(self).flip_pages_after_cue,
            final(a).events == old(a).events && final(a).refresh == old(a).refresh,
            final(a).refresh_all == old(a).refresh_all && final(a).output == old(a).output,
    {
        broadcast use vstd::std_specs::hash::group_hash_axioms;
        match self.frozen_loops.take() {
            Some(l) => {
                self.lanes.loops = l;
            },
            None => {},
        }
        match self.frozen_values.take() {
            Some(fv) => {
                a.sends = changed_values(&fv, &self.lanes.last_values, &self.lanes.loops);
                self.lanes.last_values = fv;
            },
            None => {},
        }
        match self.lanes.cued_values.take() {
            Some(cued) => {
                lay_over(&mut self.lanes.last_values, &cued, &mut a.sends);
            },
            None => {},
        }
        proof {
            crate::midi_time::lemma_view_fits(self.last_pos);
        }
    }

    /// A clock tick (see `scheduled`).
    fn schedule(&mut self, pos: MidiTime, length: MidiTime, reset_automation: bool) -> (a: TwisterActions)
        requires
            old(self).well_formed(),
            timing_ok(pos, length),
            0 <= length@,
        ensures
            final(self).well_formed(),
            old(self).scheduled(pos, length, reset_automation, *final(self), a),
    {
        let mut a = none();
        if reset_automation {
            self.lanes.loops = HashMap::new();
            a.refresh_all = true;
        }
        if self.shown_bank != self.bank {
            a.output.push((179, self.bank, 127));
            self.shown_bank = self.bank;
            proof {
                assert(a.output@ =~= seq![(179u8, old(self).bank, 127u8)]);
            }
        }
        if self.want_frozen != self.frozen {
            self.frozen = self.want_frozen;
            a.refresh_all = true;
            if self.frozen {
                self.frozen_values = Some(self.lanes.last_values.clone());
                self.frozen_loops = Some(self.lanes.loops.clone());
            } else {
                self.thaw(&mut a);
            }
        }
        let ghost banks = a.output@;
        if self.want_cueing != self.cueing {
            self.cueing = self.want_cueing;
            if self.cueing && self.lanes.cued_values.is_none() {
                self.lanes.cued_values = Some(HashMap::new());
            } else if !self.cueing && self.flip_pages_after_cue {
                a.output.push((179, ((self.bank as u16 + 1) % 4) as u8, 127));
                a.output.push((179, self.bank, 127));
            }
            a.refresh_all = true;
        }
        proof {
            if !(self.want_cueing != old(self).cueing && !self.want_cueing && self.flip_pages_after_cue) {
                assert(a.output@ =~= banks + Seq::<(u8, u8, u8)>::empty());
            } else {
                assert(a.output@ =~= banks + seq![(179u8, ((self.bank + 1) % 4) as u8, 127u8), (179u8, self.bank, 127u8)]);
            }
        }
        a.events = self.play_loops(pos, length);
        self.last_pos = pos;
        a
    }

    /// What the loops play in a clock window (see `loop_playback`).
    fn play_loops(&self, pos: MidiTime, length: MidiTime) -> (r: Vec<(LoopEvent, bool)>)
        requires
            self.well_formed(),
            timing_ok(pos, length),
            0 <= length@,
        ensures
            r@.to_set() == loop_playback(self.lanes.loops@, self.recorder, pos@, length@),
    {
        broadcast use vstd::std_specs::hash::group_hash_axioms;
        let loops = &self.lanes.loops;
        let mut keys: Vec<u32> = Vec::new();
        let ghost all = loops.keys().remaining();
        for k in it: loops.keys()
            invariant
                it.seq() == all,
                all.unref().to_set() == loops@.dom(),
                keys@ == all.unref().take(it.index() as int),
        {
            keys.push(*k);
            proof {
                assert(all.unref().take(it.index() + 1) == all.unref().take(it.index() as int).push(*k));
            }
        }
        proof {
            assert(all.unref().take(all.len() as int) == all.unref());
        }
        let ghost target = loop_playback(loops@, self.recorder, pos@, length@);
        let mut r: Vec<(LoopEvent, bool)> = Vec::new();
        let mut i: usize = 0;
        while i < keys.len()
            invariant
                i <= keys@.len(),
                keys@.to_set() == loops@.dom(),
                loops@ == self.lanes.loops@,
                self.well_formed(),
                timing_ok(pos, length),
                0 <= length@,
                r@.to_set() == Set::new(|p: (LoopEvent, bool)| p.1 && exists|id: u32| #![trigger loops@[id]] {
                    &&& keys@.take(i as int).contains(id)
                    &&& loops@.contains_key(id)
                    &&& self.recorder.events(id).contains(p.0)
                    &&& playback_pos(loops@[id], pos@) <= p.0.pos@ < playback_pos(loops@[id], pos@) + length@
                }),
            decreases keys@.len() - i,
        {
            let id = keys[i];
            proof {
                assert(keys@.to_set().contains(id));
            }
            let l = *loops.get(&id).unwrap();
            proof {
                crate::midi_time::lemma_view_fits(pos);
                assert(loops@.contains_key(id));
                assert(l == loops@[id]);
                assert(loops_fit(self.lanes.loops@));
                assert(self.lanes.loops@.contains_key(id));
                assert(loop_fits(self.lanes.loops@[id]));
            }
            let start = l.offset.modulo(l.length);
            let into = pos.minus(start).modulo(l.length);
            let from = l.offset.plus(into);
            let to = from.plus(length);
            let ghost before = r@;
            let ghost added = Set::new(|p: (LoopEvent, bool)| p.1 && self.recorder.events(id).contains(p.0)
                && from@ <= p.0.pos@ < to@);
            match self.recorder.get_range_for(id, from, to) {
                Some(events) => {
                    let mut j: usize = 0;
                    while j < events.len()
                        invariant
                            j <= events@.len(),
                            r@.to_set() == before.to_set() + Set::new(|p: (LoopEvent, bool)| p.1 && events@.take(j as int).contains(p.0)),
                        decreases events@.len() - j,
                    {
                        let ghost prev = r@;
                        let ghost e = events@[j as int];
                        r.push((events[j], true));
                        proof {
                            lemma_push_pair_to_set(prev, (e, true));
                            let t = events@.take(j as int);
                            assert(events@.take(j + 1) == t.push(e));
                            assert forall|p: (LoopEvent, bool)| r@.to_set().contains(p)
                                == (before.to_set() + Set::new(|q: (LoopEvent, bool)| q.1 && events@.take(j + 1).contains(q.0))).contains(p) by {
                                if t.push(e).contains(p.0) && p.0 != e {
                                    let k = choose|k: int| 0 <= k < t.push(e).len() && t.push(e)[k] == p.0;
                                    assert(t[k] == p.0);
                                }
                                if t.contains(p.0) {
                                    let k = choose|k: int| 0 <= k < t.len() && t[k] == p.0;
                                    assert(t.push(e)[k] == p.0);
                                }
                                if p.0 == e {
                                    assert(t.push(e)[t.len() as int] == p.0);
                                }
                            }
                            assert(r@.to_set() =~= before.to_set() + Set::new(|q: (LoopEvent, bool)| q.1 && events@.take(j + 1).contains(q.0)));
                        }
                        j = j + 1;
                    }
                    proof {
                        assert(events@.take(events@.len() as int) == events@);
                        assert(r@.to_set() =~= before.to_set() + added) by {
                            assert forall|p: (LoopEvent, bool)| (p.1 && events@.contains(p.0)) == added.contains(p) by {
                            }
                        }
                    }
                },
                None => {
                    proof {
                        self.recorder.lemma_unrecorded(id);
                        assert(added =~= Set::empty());
                        assert(r@.to_set() =~= before.to_set() + added);
                    }
                },
            }
            proof {
                let prev = keys@.take(i as int);
                assert(keys@.take(i + 1) == prev.push(id));
                assert forall|x: u32| #[trigger] prev.push(id).contains(x) == (prev.contains(x) || x == id) by {
                    if prev.push(id).contains(x) && x != id {
                        let k = choose|k: int| 0 <= k < prev.push(id).len() && prev.push(id)[k] == x;
                        assert(prev[k] == x);
                    }
                    if prev.contains(x) {
                        let k = choose|k: int| 0 <= k < prev.len() && prev[k] == x;
                        assert(prev.push(id)[k] == x);
                    }
                    if x == id {
                        assert(prev.push(id)[prev.len() as int] == x);
                    }
                }
                assert(from@ == playback_pos(l, pos@));
                let old_set = Set::new(|p: (LoopEvent, bool)| p.1 && exists|k: u32| #![trigger loops@[k]] {
                    &&& prev.contains(k)
                    &&& loops@.contains_key(k)
                    &&& self.recorder.events(k).contains(p.0)
                    &&& playback_pos(loops@[k], pos@) <= p.0.pos@ < playback_pos(loops@[k], pos@) + length@
                });
                let next = Set::new(|p: (LoopEvent, bool)| p.1 && exists|k: u32| #![trigger loops@[k]] {
                    &&& keys@.take(i + 1).contains(k)
                    &&& loops@.contains_key(k)
                    &&& self.recorder.events(k).contains(p.0)
                    &&& playback_pos(loops@[k], pos@) <= p.0.pos@ < playback_pos(loops@[k], pos@) + length@
                });
                assert(before.to_set() == old_set);
                assert forall|p: (LoopEvent, bool)| (old_set + added).contains(p) == next.contains(p) by {
                    if old_set.contains(p) {
                        let k = choose|k: u32| #![trigger loops@[k]] {
                            &&& prev.contains(k)
                            &&& loops@.contains_key(k)
                            &&& self.recorder.events(k).contains(p.0)
                            &&& playback_pos(loops@[k], pos@) <= p.0.pos@ < playback_pos(loops@[k], pos@) + length@
                        };
                        assert(prev.push(id).contains(k));
                        assert(next.contains(p));
                    }
                    if added.contains(p) {
                        assert(prev.push(id).contains(id));
                        assert(loops@[id] == l);
                        assert(next.contains(p));
                    }
                    if next.contains(p) {
                        let k = choose|k: u32| #![trigger loops@[k]] {
                            &&& keys@.take(i + 1).contains(k)
                            &&& loops@.contains_key(k)
                            &&& self.recorder.events(k).contains(p.0)
                            &&& playback_pos(loops@[k], pos@) <= p.0.pos@ < playback_pos(loops@[k], pos@) + length@
                        };
                        if k == id {
                            assert(loops@[id] == l);
                            assert(added.contains(p));
                        } else {
                            assert(prev.contains(k));
                            assert(old_set.contains(p));
                        }
                    }
                }
                assert(r@.to_set() =~= next);
            }
            i = i + 1;
        }
        proof {
            assert(keys@.take(keys@.len() as int) == keys@);
            assert forall|p: (LoopEvent, bool)| r@.to_set().contains(p) == target.contains(p) by {
                if target.contains(p) {
                    let k = choose|k: u32| #![trigger loops@[k]] {
                        &&& loops@.contains_key(k)
                        &&& self.recorder.events(k).contains(p.0)
                        &&& playback_pos(loops@[k], pos@) <= p.0.pos@ < playback_pos(loops@[k], pos@) + length@
                    };
                    assert(keys@.to_set().contains(k));
                }
            }
            assert(r@.to_set() =~= target);
        }
        r
    }
}


/// An input of the encoder controller: an encoder turned to a value, an encoder's record
/// button, a bank chosen, or one of the side buttons (both freeze).
#[derive(Debug, Copy, Clone, PartialEq, Eq, Structural)]
pub enum TwisterInput {
    Turn { id: u32, value: u8 },
    Record { id: u32, pressed: bool },
    Bank(u8),
    Freeze(bool),
}

/// The input three bytes of the encoder controller stand for: a control change on
/// channel 1 turns encoder `b1`, on channel 2 presses (value above 0) or releases its
/// record button; on channel 4 a value of 127 on controllers 0 to 3 chooses that bank,
/// and controllers 10, 16, 22, 28 (left) and 13, 19, 25, 31 (right) are the side buttons.
pub open spec fn twister_input(b0: u8, b1: u8, b2: u8) -> Option<TwisterInput> {
    if b0 == 176 {
        Some(TwisterInput::Turn { id: b1 as u32, value: b2 })
    } else if b0 == 177 {
        Some(TwisterInput::Record { id: b1 as u32, pressed: b2 > 0 })
    } else if b0 == 179 && b1 < 4 && b2 == 127 {
        Some(TwisterInput::Bank(b1))
    } else if b0 == 179 && (b1 == 10 || b1 == 16 || b1 == 22 || b1 == 28 || b1 == 13 || b1 == 19 || b1 == 25 || b1 == 31) {
        Some(TwisterInput::Freeze(b2 > 0))
    } else {
        None
    }
}

/// Reads a message of the encoder controller (see `twister_input`); shorter messages are
/// none.
pub fn decode_twister_message(message: &[u8]) -> (r: Option<TwisterInput>)
    ensures
        r == (if message@.len() >= 3 { twister_input(message@[0], message@[1], message@[2]) } else { None }),
{
    if message.len() < 3 {
        return None;
    }
    let (b0, b1, b2) = (message[0], message[1], message[2]);
    if b0 == 176 {
        Some(TwisterInput::Turn { id: b1 as u32, value: b2 })
    } else if b0 == 177 {
        Some(TwisterInput::Record { id: b1 as u32, pressed: b2 > 0 })
    } else if b0 == 179 && b1 < 4 && b2 == 127 {
        Some(TwisterInput::Bank(b1))
    } else if b0 == 179 && (b1 == 10 || b1 == 16 || b1 == 22 || b1 == 28 || b1 == 13 || b1 == 19 || b1 == 25 || b1 == 31) {
        Some(TwisterInput::Freeze(b2 > 0))
    } else {
        None
    }
}

} // verus!
