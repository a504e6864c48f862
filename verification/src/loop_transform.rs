use vstd::prelude::*;

use crate::midi_time::{fits, wrap, MidiTime};
use crate::output_value::OutputValue;

verus! {

/// What a trigger's loop playback is replaced with: a held value, a repeating value,
/// a sub-range of the loop, or nothing.
#[derive(Debug, Copy, Clone, PartialEq, Eq, Structural)]
pub enum LoopTransform {
    Value(OutputValue),
    Repeat { rate: MidiTime, offset: MidiTime, value: OutputValue },
    Range { pos: MidiTime, length: MidiTime },
    Empty,
}

/// Composition of a transform laid over a previous one.
pub open spec fn spec_apply(t: LoopTransform, previous: LoopTransform) -> LoopTransform {
    match t {
        LoopTransform::Range { pos, length } => match previous {
            LoopTransform::Repeat { rate, offset, value } => LoopTransform::Repeat {
                rate: if rate@ >= length@ { rate } else { length },
                offset,
                value,
            },
            LoopTransform::Range { pos: previous_pos, length: previous_length } => {
                LoopTransform::Range { pos: previous_pos, length }
            },
            _ => t,
        },
        LoopTransform::Empty => previous,
        _ => t,
    }
}

/// A range laid over a range can only be composed when the earlier range has a length.
pub open spec fn apply_defined(t: LoopTransform, previous: LoopTransform) -> bool {
    (t is Range && previous is Range) ==> {
        &&& previous->Range_length@ > 0
        &&& fits(t->Range_pos@ - wrap(t->Range_pos@, previous->Range_length@))
    }
}

impl LoopTransform {
    /// Lays this transform over `previous`: a range over a repeat stretches the repeat rate
    /// to at least the range length; a range over a range keeps playing from the earlier
    /// range's start (the offset of `pos` within the earlier length, taken back off `pos`,
    /// is a whole number of lengths); no transform (`Empty`) leaves `previous` as it is.
    pub fn apply(&self, previous: &LoopTransform) -> (r: LoopTransform)
        requires
            apply_defined(*self, *previous),
        ensures
            r == spec_apply(*self, *previous),
    {
        match self {
            LoopTransform::Range { pos, length } => match previous {
                LoopTransform::Repeat { rate, offset, value } => LoopTransform::Repeat {
                    rate: rate.later(*length),
                    offset: *offset,
                    value: *value,
                },
                LoopTransform::Range { pos: previous_pos, length: previous_length } => {
                    let playback_offset = pos.modulo(*previous_length);
                    let back = pos.minus(playback_offset);
                    let cycle = back.modulo(*previous_length);
                    proof {
                        let p = pos@;
                        let l = previous_length@;
                        assert(back@ == p - p % l);
                        vstd::arithmetic::div_mod::lemma_fundamental_div_mod(p, l);
                        assert(back@ == l * (p / l));
                        vstd::arithmetic::div_mod::lemma_mod_multiples_basic(p / l, l);
                        assert((p / l) * l == l * (p / l)) by (nonlinear_arith);
                        assert(cycle@ == 0);
                        crate::midi_time::lemma_view_fits(*previous_pos);
                    }
                    let playback_pos = previous_pos.plus(cycle);
                    proof {
                        crate::midi_time::lemma_view_determines(playback_pos, *previous_pos);
                    }
                    LoopTransform::Range { pos: playback_pos, length: *length }
                },
                _ => *self,
            },
            LoopTransform::Empty => *previous,
            _ => *self,
        }
    }

    /// Whether the transform changes what plays: anything but a release or nothing.
    pub fn is_active(&self) -> (r: bool)
        ensures
            r == !(*self == LoopTransform::Value(OutputValue::Off) || *self is Empty),
    {
        match self {
            LoopTransform::Value(OutputValue::Off) | LoopTransform::Empty => false,
            _ => true,
        }
    }
}

/// Laying "no transform" over anything leaves it as it was.
pub proof fn lemma_none_is_identity(previous: LoopTransform)
    ensures
        spec_apply(LoopTransform::Empty, previous) == previous,
{
}

/// Transforms that are not ranges replace whatever they are laid over.
pub proof fn lemma_non_range_replaces(t: LoopTransform, previous: LoopTransform)
    requires
        !(t is Range),
        !(t is Empty),
    ensures
        spec_apply(t, previous) == t,
{
}


/// A range laid over a repeat keeps the repeat's offset and value and never speeds it up:
/// it plays at the slower of the repeat's rate and the range's length.
pub proof fn law_range_over_repeat_plays_at_the_slower_rate(
    pos: MidiTime,
    length: MidiTime,
    rate: MidiTime,
    offset: MidiTime,
    value: OutputValue,
)
    ensures
        spec_apply(LoopTransform::Range { pos, length }, LoopTransform::Repeat { rate, offset, value }) matches
            LoopTransform::Repeat { rate: r, offset: o, value: v } && {
            &&& r@ >= rate@
            &&& r@ >= length@
            &&& (r == rate || r == length)
            &&& o == offset
            &&& v == value
        },
{
}

/// Laying nothing over a transform leaves it as it is; a value or a repeat laid over
/// anything replaces it; a range over a range keeps the earlier start with the new length.
pub proof fn law_apply_keeps_or_replaces(t: LoopTransform, previous: LoopTransform)
    ensures
        spec_apply(LoopTransform::Empty, previous) == previous,
        (t is Value || t is Repeat) ==> spec_apply(t, previous) == t,
        (t is Range && previous is Range) ==> spec_apply(t, previous) == (LoopTransform::Range {
            pos: previous->Range_pos,
            length: t->Range_length,
        }),
        (t is Range && (previous is Value || previous is Empty)) ==> spec_apply(t, previous) == t,
{
}

} // verus!
