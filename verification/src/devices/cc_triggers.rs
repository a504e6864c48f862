use vstd::prelude::*;

use super::{channel_fits, map_velocity, map_view, spec_map_velocity, status, velocity_map_defined, MidiMessage};
use crate::output_value::OutputValue;
use std::collections::HashMap;

verus! {

/// What a trigger sends: a control change or a note (with a fixed value or the played
/// velocity), several of these, or nothing.
#[derive(Debug)]
pub enum MidiTrigger {
    Cc(u8, u8, u8),
    CcVelocity(u8, u8),
    Note(u8, u8, u8),
    NoteVelocity(u8, u8),
    Multi(Vec<MidiTrigger>),
    Silent,
}

/// Every channel a trigger names can address control changes (and so notes).
pub open spec fn trigger_ok(t: MidiTrigger) -> bool
    decreases t,
{
    match t {
        MidiTrigger::Cc(channel, _, _) => channel_fits(176, channel as int),
        MidiTrigger::CcVelocity(channel, _) => channel_fits(176, channel as int),
        MidiTrigger::Note(channel, _, _) => channel_fits(176, channel as int),
        MidiTrigger::NoteVelocity(channel, _) => channel_fits(176, channel as int),
        MidiTrigger::Multi(ts) => forall|i: int| 0 <= i < ts@.len() ==> trigger_ok(#[trigger] ts@[i]),
        MidiTrigger::Silent => true,
    }
}

/// The messages a trigger sends when pressed with a velocity (already mapped).
pub open spec fn on_messages(t: MidiTrigger, velocity: u8) -> Seq<MidiMessage>
    decreases t,
{
    match t {
        MidiTrigger::Cc(channel, cc, value) => seq![MidiMessage::Three(status(176, channel as int) as u8, cc, value)],
        MidiTrigger::Note(channel, note, v) => seq![MidiMessage::Three(status(144, channel as int) as u8, note, v)],
        MidiTrigger::CcVelocity(channel, cc) => seq![MidiMessage::Three(status(176, channel as int) as u8, cc, velocity)],
        MidiTrigger::NoteVelocity(channel, note) => seq![MidiMessage::Three(status(144, channel as int) as u8, note, velocity)],
        MidiTrigger::Multi(ts) => on_messages_all(ts@, velocity),
        MidiTrigger::Silent => Seq::empty(),
    }
}

/// The messages of several triggers pressed in turn.
pub open spec fn on_messages_all(ts: Seq<MidiTrigger>, velocity: u8) -> Seq<MidiMessage>
    decreases ts,
{
    if ts.len() == 0 {
        Seq::empty()
    } else {
        on_messages_all(ts.drop_last(), velocity) + on_messages(ts.last(), velocity)
    }
}

/// The messages a trigger sends when released: each control or note it set goes to zero.
pub open spec fn off_messages(t: MidiTrigger) -> Seq<MidiMessage>
    decreases t,
{
    match t {
        MidiTrigger::Cc(channel, cc, _) => seq![MidiMessage::Three(status(176, channel as int) as u8, cc, 0)],
        MidiTrigger::Note(channel, note, _) => seq![MidiMessage::Three(status(144, channel as int) as u8, note, 0)],
        MidiTrigger::CcVelocity(channel, cc) => seq![MidiMessage::Three(status(176, channel as int) as u8, cc, 0)],
        MidiTrigger::NoteVelocity(channel, note) => seq![MidiMessage::Three(status(144, channel as int) as u8, note, 0)],
        MidiTrigger::Multi(ts) => off_messages_all(ts@),
        MidiTrigger::Silent => Seq::empty(),
    }
}

/// The release messages of several triggers in turn.
pub open spec fn off_messages_all(ts: Seq<MidiTrigger>) -> Seq<MidiMessage>
    decreases ts,
{
    if ts.len() == 0 {
        Seq::empty()
    } else {
        off_messages_all(ts.drop_last()) + off_messages(ts.last())
    }
}

/// Appends the messages of a pressed trigger.
fn push_on(out: &mut Vec<MidiMessage>, trigger: &MidiTrigger, velocity: u8)
    requires
        trigger_ok(*trigger),
    ensures
        final(out)@ == old(out)@ + on_messages(*trigger, velocity),
    decreases *trigger,
{
    match trigger {
        MidiTrigger::Cc(channel, cc, value) => {
            out.push(MidiMessage::Three(176 - 1 + *channel, *cc, *value));
        },
        MidiTrigger::Note(channel, note, v) => {
            out.push(MidiMessage::Three(144 - 1 + *channel, *note, *v));
        },
        MidiTrigger::CcVelocity(channel, cc) => {
            out.push(MidiMessage::Three(176 - 1 + *channel, *cc, velocity));
        },
        MidiTrigger::NoteVelocity(channel, note) => {
            out.push(MidiMessage::Three(144 - 1 + *channel, *note, velocity));
        },
        MidiTrigger::Multi(triggers) => {
            let ghost start = out@;
            let mut i: usize = 0;
            #[verifier::loop_isolation(false)]
            while i < triggers.len()
                invariant
                    0 <= i <= triggers@.len(),
                    forall|k: int| 0 <= k < triggers@.len() ==> trigger_ok(#[trigger] triggers@[k]),
                    out@ == start + on_messages_all(triggers@.subrange(0, i as int), velocity),
                decreases triggers@.len() - i,
            {
                proof {
                    assert(triggers@.subrange(0, i + 1).drop_last() =~= triggers@.subrange(0, i as int));
                }
                proof {
                    assert(decreases_to!(*trigger => (*trigger)->Multi_0));
                    assert(decreases_to!(*triggers => triggers@));
                    assert(decreases_to!(triggers@ => triggers@[i as int]));
                }
                push_on(out, &triggers[i], velocity);
                i += 1;
            }
            proof {
                assert(triggers@.subrange(0, triggers@.len() as int) =~= triggers@);
            }
        },
        MidiTrigger::Silent => {
            assert(out@ =~= old(out)@ + on_messages(*trigger, velocity));
        },
    }
}

/// Appends the release messages of a trigger.
fn push_off(out: &mut Vec<MidiMessage>, trigger: &MidiTrigger)
    requires
        trigger_ok(*trigger),
    ensures
        final(out)@ == old(out)@ + off_messages(*trigger),
    decreases *trigger,
{
    match trigger {
        MidiTrigger::Cc(channel, cc, _) => {
            out.push(MidiMessage::Three(176 - 1 + *channel, *cc, 0));
        },
        MidiTrigger::Note(channel, note, _) => {
            out.push(MidiMessage::Three(144 - 1 + *channel, *note, 0));
        },
        MidiTrigger::CcVelocity(channel, cc) => {
            out.push(MidiMessage::Three(176 - 1 + *channel, *cc, 0));
        },
        MidiTrigger::NoteVelocity(channel, note) => {
            out.push(MidiMessage::Three(144 - 1 + *channel, *note, 0));
        },
        MidiTrigger::Multi(triggers) => {
            let ghost start = out@;
            let mut i: usize = 0;
            #[verifier::loop_isolation(false)]
            while i < triggers.len()
                invariant
                    0 <= i <= triggers@.len(),
                    forall|k: int| 0 <= k < triggers@.len() ==> trigger_ok(#[trigger] triggers@[k]),
                    out@ == start + off_messages_all(triggers@.subrange(0, i as int)),
                decreases triggers@.len() - i,
            {
                proof {
                    assert(triggers@.subrange(0, i + 1).drop_last() =~= triggers@.subrange(0, i as int));
                }
                proof {
                    assert(decreases_to!(*trigger => (*trigger)->Multi_0));
                    assert(decreases_to!(*triggers => triggers@));
                    assert(decreases_to!(triggers@ => triggers@[i as int]));
                }
                push_off(out, &triggers[i]);
                i += 1;
            }
            proof {
                assert(triggers@.subrange(0, triggers@.len() as int) =~= triggers@);
            }
        },
        MidiTrigger::Silent => {
            assert(out@ =~= old(out)@ + off_messages(*trigger));
        },
    }
}

/// Sends configured control changes and notes: trigger `id` uses the configured trigger
/// `id` modulo their number, with its velocity passed through the velocity map.
pub struct CcTriggers {
    output_values: HashMap<u32, usize>,
    velocity_map: Option<Vec<u8>>,
    triggers: Vec<MidiTrigger>,
    outbox: Vec<MidiMessage>,
}

impl CcTriggers {
    /// For each held trigger, which configured trigger it played.
    pub closed spec fn held(&self) -> Map<u32, usize> {
        self.output_values@
    }

    pub closed spec fn triggers(&self) -> Seq<MidiTrigger> {
        self.triggers@
    }

    pub closed spec fn velocity_map(&self) -> Option<Seq<u8>> {
        map_view(&self.velocity_map)
    }

    pub closed spec fn sent(&self) -> Seq<MidiMessage> {
        self.outbox@
    }

    /// Configured triggers whose channels fit, and held triggers taken from them.
    pub open spec fn well_formed(&self) -> bool {
        &&& forall|i: int| 0 <= i < self.triggers().len() ==> trigger_ok(#[trigger] self.triggers()[i])
        &&& forall|id: u32| #[trigger] self.held().contains_key(id) ==> self.held()[id] < self.triggers().len()
    }

    pub fn new(triggers: Vec<MidiTrigger>, velocity_map: Option<Vec<u8>>) -> (r: CcTriggers)
        requires
            forall|i: int| 0 <= i < triggers@.len() ==> trigger_ok(#[trigger] triggers@[i]),
        ensures
            r.well_formed(),
            r.triggers() == triggers@,
            r.velocity_map() == map_view(&velocity_map),
            r.held() == Map::<u32, usize>::empty(),
            r.sent() == Seq::<MidiMessage>::empty(),
    {
        CcTriggers { output_values: HashMap::new(), velocity_map, triggers, outbox: Vec::new() }
    }

    /// A trigger changed value: a press sends its configured trigger (and remembers it), a
    /// release sends the remembered trigger's release.
    pub fn trigger(&mut self, id: u32, value: OutputValue)
        requires
            old(self).well_formed(),
            old(self).triggers().len() > 0,
            value matches OutputValue::On(v) ==> velocity_map_defined(old(self).velocity_map(), v),
        ensures
            final(self).well_formed(),
            final(self).triggers() == old(self).triggers(),
            final(self).velocity_map() == old(self).velocity_map(),
            match value {
                OutputValue::Off => if old(self).held().contains_key(id) {
                    &&& final(self).sent() == old(self).sent() + off_messages(old(self).triggers()[old(self).held()[id] as int])
                    &&& final(self).held() == old(self).held().remove(id)
                } else {
                    final(self).sent() == old(self).sent() && final(self).held() == old(self).held()
                },
                OutputValue::On(velocity) => {
                    let index = id as int % old(self).triggers().len() as int;
                    &&& final(self).sent() == old(self).sent() + on_messages(old(self).triggers()[index], spec_map_velocity(old(self).velocity_map(), velocity))
                    &&& final(self).held() == old(self).held().insert(id, index as usize)
                },
            },
    {
        broadcast use vstd::std_specs::hash::group_hash_axioms;
        match value {
            OutputValue::Off => {
                if self.output_values.contains_key(&id) {
                    let index = *self.output_values.get(&id).unwrap();
                    proof {
                        assert(self.held().contains_key(id));
                        assert(index == self.held()[id]);
                        assert(index < self.triggers().len());
                    }
                    push_off(&mut self.outbox, &self.triggers[index]);
                    self.output_values.remove(&id);
                }
            },
            OutputValue::On(velocity) => {
                let index = (id as usize) % self.triggers.len();
                let velocity = map_velocity(&self.velocity_map, velocity);
                push_on(&mut self.outbox, &self.triggers[index], velocity);
                self.output_values.insert(id, index);
            },
        }
        proof {
            assert forall|k: u32| #[trigger] self.held().contains_key(k) implies self.held()[k] < self.triggers().len() by {
                if k != id {
                    assert(old(self).held().contains_key(k));
                }
            }
        }
    }

    /// Hands out the messages produced so far.
    pub fn take_messages(&mut self) -> (r: Vec<MidiMessage>)
        ensures
            r@ == old(self).sent(),
            final(self).sent() == Seq::<MidiMessage>::empty(),
            final(self).held() == old(self).held(),
            final(self).triggers() == old(self).triggers(),
            final(self).velocity_map() == old(self).velocity_map(),
    {
        let mut out: Vec<MidiMessage> = Vec::new();
        std::mem::swap(&mut out, &mut self.outbox);
        out
    }
}

} // verus!
