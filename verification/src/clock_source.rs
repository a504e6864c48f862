use vstd::prelude::*;

use crate::midi_time::{fits, wrap, MidiTime};

verus! {

/// Tempo the clock starts at, in beats per minute.
pub const DEFAULT_TEMPO: usize = 120;

/// What the clock tells its listeners: a tick to schedule, a new tempo, or a jump of the
/// position.
#[derive(Debug, Copy, Clone, PartialEq, Eq, Structural)]
pub enum FromClock {
    Schedule { pos: MidiTime, length: MidiTime },
    Tempo(usize),
    Jump,
}

/// What listeners ask of the clock.
#[derive(Debug, Copy, Clone, PartialEq, Eq, Structural)]
pub enum ToClock {
    TapTempo,
    SetTempo(usize),
    Nudge(MidiTime),
}

/// What reaches the clock's loop: a tempo change, a nudge, a tick of the internal clock,
/// a tick or a start of an external clock.
#[derive(Debug, Copy, Clone, PartialEq, Eq, Structural)]
pub enum ClockMessage {
    Tempo(usize),
    Nudge(MidiTime),
    InternalTick,
    ExternalTick,
    ExternalPlay,
}

/// What the clock does for a message: what it tells its listeners, whether it sends a
/// clock tick to its outputs, and whether the internal clock is silenced for a while
/// (because an external clock is running).
#[derive(Debug, Copy, Clone, PartialEq, Eq, Structural)]
pub struct ClockAction {
    pub broadcast: Option<FromClock>,
    pub send_clock: bool,
    pub suppress_internal: bool,
}

/// Positions near enough to the middle of the representable range for a step of the
/// clock (at most a beat either way, or the nudge) to stay representable.
pub open spec fn step_fits(tick_pos: MidiTime, message: ClockMessage) -> bool {
    &&& fits(tick_pos@ + 6144)
    &&& fits(tick_pos@ - 6144)
    &&& message matches ClockMessage::Nudge(offset) ==> fits(tick_pos@ + offset@)
}

/// The position after a start of the external clock: the current position rounded to the
/// nearest beat (halves round up).
pub open spec fn beat_aligned(pos: int) -> int {
    let offset = wrap(pos, 6144);
    if offset >= 3072 { pos + (6144 - offset) } else { pos - offset }
}

/// One step of the clock: from the position it has reached and the message, the next
/// position and what to do. A tick of the internal clock schedules the current tick and
/// moves on (unless an external clock silences it); a tick of an external clock does the
/// same and silences the internal clock; a start of the external clock moves to the
/// nearest beat; a nudge moves by its offset; both announce a jump. A tempo is passed on.
pub fn clock_step(tick_pos: MidiTime, internal_suppressed: bool, message: ClockMessage) -> (r: (MidiTime, ClockAction))
    requires
        step_fits(tick_pos, message),
    ensures
        match message {
            ClockMessage::InternalTick => if internal_suppressed {
                r.0 == tick_pos && r.1 == (ClockAction { broadcast: None, send_clock: false, suppress_internal: false })
            } else {
                &&& r.0@ == tick_pos@ + 256
                &&& r.1.broadcast matches Some(FromClock::Schedule { pos, length }) && pos == tick_pos && length@ == 256
                &&& r.1.send_clock
                &&& !r.1.suppress_internal
            },
            ClockMessage::ExternalTick => {
                &&& r.0@ == tick_pos@ + 256
                &&& r.1.broadcast matches Some(FromClock::Schedule { pos, length }) && pos == tick_pos && length@ == 256
                &&& r.1.send_clock
                &&& r.1.suppress_internal
            },
            ClockMessage::ExternalPlay => {
                &&& r.0@ == beat_aligned(tick_pos@)
                &&& r.1 == (ClockAction { broadcast: Some(FromClock::Jump), send_clock: false, suppress_internal: false })
            },
            ClockMessage::Tempo(value) => {
                &&& r.0 == tick_pos
                &&& r.1 == (ClockAction { broadcast: Some(FromClock::Tempo(value)), send_clock: false, suppress_internal: false })
            },
            ClockMessage::Nudge(offset) => {
                &&& r.0@ == tick_pos@ + offset@
                &&& r.1 == (ClockAction { broadcast: Some(FromClock::Jump), send_clock: false, suppress_internal: false })
            },
        },
{
    let quiet = ClockAction { broadcast: None, send_clock: false, suppress_internal: false };
    match message {
        ClockMessage::InternalTick => {
            if internal_suppressed {
                (tick_pos, quiet)
            } else {
                let schedule = FromClock::Schedule { pos: tick_pos, length: MidiTime::tick() };
                (tick_pos.plus(MidiTime::tick()), ClockAction { broadcast: Some(schedule), send_clock: true, suppress_internal: false })
            }
        },
        ClockMessage::ExternalTick => {
            let schedule = FromClock::Schedule { pos: tick_pos, length: MidiTime::tick() };
            (tick_pos.plus(MidiTime::tick()), ClockAction { broadcast: Some(schedule), send_clock: true, suppress_internal: true })
        },
        ClockMessage::ExternalPlay => {
            let beat = MidiTime::from_beats(1);
            let offset = tick_pos.modulo(beat);
            let next = if offset.fractions() >= MidiTime::from_ticks(12).fractions() {
                tick_pos.plus(beat.minus(offset))
            } else {
                tick_pos.minus(offset)
            };
            (next, ClockAction { broadcast: Some(FromClock::Jump), send_clock: false, suppress_internal: false })
        },
        ClockMessage::Tempo(value) => {
            (tick_pos, ClockAction { broadcast: Some(FromClock::Tempo(value)), send_clock: false, suppress_internal: false })
        },
        ClockMessage::Nudge(offset) => {
            (tick_pos.plus(offset), ClockAction { broadcast: Some(FromClock::Jump), send_clock: false, suppress_internal: false })
        },
    }
}

/// Whether a scheduled position starts a 32-beat phrase, where a follower's song position
/// is reset.
pub fn starts_phrase(pos: MidiTime) -> (r: bool)
    ensures
        r == (wrap(pos@, 196608int) == 0),
{
    pos.modulo(MidiTime::from_beats(32)).fractions() == 0
}

/// A start of the external clock lands on a beat, less than half a beat back or at most
/// half a beat ahead.
pub proof fn law_play_lands_on_beat(pos: int)
    ensures
        wrap(beat_aligned(pos), 6144) == 0,
        -3072 < beat_aligned(pos) - pos <= 3072,
{
    let q = pos / 6144;
    let offset = wrap(pos, 6144);
    vstd::arithmetic::div_mod::lemma_fundamental_div_mod(pos, 6144);
    if offset >= 3072 {
        vstd::arithmetic::div_mod::lemma_mod_multiples_basic(q + 1, 6144);
        assert(beat_aligned(pos) == (q + 1) * 6144);
    } else {
        vstd::arithmetic::div_mod::lemma_mod_multiples_basic(q, 6144);
        assert(beat_aligned(pos) == q * 6144);
    }
}

} // verus!
