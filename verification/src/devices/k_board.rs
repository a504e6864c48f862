use vstd::prelude::*;

use crate::chunk::TriggerModeChange;
use crate::devices::MidiMessage;
use crate::loop_grid::set_members;
use crate::output_value::OutputValue;
use std::collections::HashSet;

verus! {

/// What reaches the keyboard's loop: a request to show the scale, the active keys or one
/// key's state; a key to play (velocity zero releases it); a key pressed on the keyboard;
/// a change of what the grid's triggers do; a tick of the blink timer.
#[derive(Debug, Copy, Clone, PartialEq, Eq, Structural)]
pub enum KBoardMessage {
    RefreshScale,
    RefreshActive,
    RefreshNote(u32),
    Trigger(u32, u8),
    Input(u32, u8),
    TriggerMode(TriggerModeChange),
    Tick(u64),
}

/// What the keyboard does for a message: lights to set on the keyboard, messages for the
/// monophonic synthesizer and for the polyphonic one, messages it sends itself next, and a
/// key press to pass on to its listeners.
pub struct KBoardActions {
    pub lights: Vec<MidiMessage>,
    pub synth: Vec<MidiMessage>,
    pub poly: Vec<MidiMessage>,
    pub follow_up: Vec<KBoardMessage>,
    pub input: Option<(u32, OutputValue)>,
}

/// A key light message.
pub open spec fn key_light(id: int, value: u8) -> MidiMessage {
    MidiMessage::Three(144, (id % 256) as u8, value)
}

/// The low byte of a number, as a MIDI data byte is cut from it.
fn low_byte(x: i32) -> (r: u8)
    ensures
        r as int == x as int % 256,
{
    let y: i64 = x as i64 + 0x1_0000_0000;
    proof {
        assert(y % 256 == x as int % 256);
    }
    (y % 256) as u8
}

/// A note message on a channel: `kind` is the status of channel 1.
pub open spec fn channel_note(kind: int, channel: u8, id: u32, value: u8) -> MidiMessage {
    MidiMessage::Three((kind - 1 + channel) as u8, (id % 256) as u8, value)
}

/// The lights that show the scale: each of the first 25 keys lit when the scale has it.
pub open spec fn scale_lights(notes: Set<u32>) -> Seq<MidiMessage> {
    Seq::new(25, |i: int| key_light(i, if notes.contains(i as u32) { 127u8 } else { 0u8 }))
}

/// Whether a stack entry is for another key than `id`.
pub open spec fn other_key(id: u32) -> spec_fn((u32, u8)) -> bool {
    |e: (u32, u8)| e.0 != id
}

/// The monophonic synthesizer's stack after a key is played: a press goes on top; a
/// release takes the key out wherever it is.
pub open spec fn stack_after(stack: Seq<(u32, u8)>, id: u32, velocity: u8) -> Seq<(u32, u8)> {
    if velocity > 0 {
        stack.push((id, velocity))
    } else {
        stack.filter(other_key(id))
    }
}

/// Playing a key that is not in the synthesizer's stack and letting it go leaves the
/// stack as it was.
pub proof fn law_stack_press_release_restores(stack: Seq<(u32, u8)>, id: u32, velocity: u8)
    requires
        velocity > 0,
        forall|i: int| 0 <= i < stack.len() ==> #[trigger] stack[i].0 != id,
    ensures
        stack_after(stack_after(stack, id, velocity), id, 0) == stack,
    decreases stack.len(),
{
    let pushed = stack.push((id, velocity));
    reveal_with_fuel(Seq::filter, 1);
    assert(pushed.drop_last() == stack);
    if stack.len() == 0 {
        assert(stack.filter(other_key(id)) =~= stack);
    } else {
        lemma_filter_keeps_others(stack, id);
    }
}

proof fn lemma_filter_keeps_others(stack: Seq<(u32, u8)>, id: u32)
    requires
        forall|i: int| 0 <= i < stack.len() ==> #[trigger] stack[i].0 != id,
    ensures
        stack.filter(other_key(id)) == stack,
    decreases stack.len(),
{
    reveal_with_fuel(Seq::filter, 1);
    if stack.len() > 0 {
        let rest = stack.drop_last();
        assert forall|i: int| 0 <= i < rest.len() implies #[trigger] rest[i].0 != id by {
            assert(rest[i] == stack[i]);
        }
        lemma_filter_keeps_others(rest, id);
        assert(stack.last().0 != id);
        assert(rest.push(stack.last()) =~= stack);
    } else {
        assert(stack.filter(other_key(id)) =~= stack);
    }
}

/// What the monophonic synthesizer gets when a key is played: the sustain control goes up
/// when nothing was playing; a press stops the note on top (with its velocity) and starts
/// the key's; a release of the key on top stops it and restarts the one now on top; the
/// sustain control goes down when nothing plays any more.
pub open spec fn synth_messages(
    channel: u8,
    stack: Seq<(u32, u8)>,
    triggering: Set<u32>,
    id: u32,
    velocity: u8,
) -> Seq<MidiMessage> {
    let cc = (175 + channel) as u8;
    let start = if triggering.len() == 0 { seq![MidiMessage::Three(cc, 17, 127)] } else { Seq::empty() };
    let after = if velocity > 0 { triggering.insert(id) } else { triggering.remove(id) };
    let middle = if velocity > 0 {
        (if stack.len() > 0 {
            seq![channel_note(128, channel, stack.last().0, stack.last().1)]
        } else {
            Seq::empty()
        }) + seq![channel_note(144, channel, id, velocity)]
    } else {
        let on_top = stack.len() > 0 && stack.last().0 == id;
        let rest = stack.filter(other_key(id));
        if on_top {
            seq![channel_note(128, channel, id, 0)] + if rest.len() > 0 {
                seq![channel_note(144, channel, rest.last().0, rest.last().1)]
            } else {
                Seq::empty()
            }
        } else {
            Seq::empty()
        }
    };
    let end = if after.len() == 0 { seq![MidiMessage::Three(cc, 17, 0)] } else { Seq::empty() };
    start + middle + end
}

/// A keyboard that shows the scale and active keys and plays two synthesizers: one
/// monophonic (the latest key sounds) on `channel`, one polyphonic on `channel2`.
pub struct KBoard {
    pub channel: u8,
    pub channel2: u8,
    pub triggering: HashSet<u32>,
    pub trigger_stack: Vec<(u32, u8)>,
    pub active: HashSet<u32>,
    pub selected: HashSet<u32>,
    pub selecting_scale: bool,
}

impl KBoard {
    /// Nothing playing, active or selected; the keyboard shows the scale.
    pub fn new(channel: u8, channel2: u8) -> (r: KBoard)
        ensures
            r.channel == channel,
            r.channel2 == channel2,
            r.triggering@.is_empty(),
            r.trigger_stack@ == Seq::<(u32, u8)>::empty(),
            r.active@.is_empty(),
            r.selected@.is_empty(),
            r.selecting_scale,
    {
        KBoard {
            channel,
            channel2,
            triggering: HashSet::new(),
            trigger_stack: Vec::new(),
            active: HashSet::new(),
            selected: HashSet::new(),
            selecting_scale: true,
        }
    }

    fn trigger_key(&mut self, id: u32, velocity: u8, actions: &mut KBoardActions)
        requires
            old(self).channel <= 79,
            old(self).channel2 <= 111,
            old(actions).lights@.len() == 0,
            old(actions).synth@.len() == 0,
            old(actions).poly@.len() == 0,
            old(actions).follow_up@.len() == 0,
            old(actions).input is None,
        ensures
            final(self).channel == old(self).channel,
            final(self).channel2 == old(self).channel2,
            final(self).selecting_scale == old(self).selecting_scale,
            final(actions).poly@ == seq![if velocity > 0 {
                channel_note(144, old(self).channel2, id, velocity)
            } else {
                channel_note(128, old(self).channel2, id, 0)
            }],
            final(actions).synth@ == synth_messages(old(self).channel, old(self).trigger_stack@, old(self).triggering@, id, velocity),
            final(self).trigger_stack@ == stack_after(old(self).trigger_stack@, id, velocity),
            final(self).triggering@ == if velocity > 0 { old(self).triggering@.insert(id) } else { old(self).triggering@.remove(id) },
            final(actions).follow_up@ == if velocity > 0 {
                seq![KBoardMessage::RefreshNote(id)]
            } else {
                seq![KBoardMessage::RefreshScale, KBoardMessage::RefreshNote(id)]
            },
            final(actions).lights@.len() == 0,
            final(actions).input is None,
            final(self).active == old(self).active,
            final(self).selected == old(self).selected,
    {
        broadcast use vstd::std_specs::hash::group_hash_axioms;
        let channel = self.channel;
        let channel2 = self.channel2;
        if velocity > 0 {
            actions.poly.push(MidiMessage::Three(144 + channel2 - 1, (id % 256) as u8, velocity));
        } else {
            actions.poly.push(MidiMessage::Three(128 + channel2 - 1, (id % 256) as u8, 0));
        }
        if self.triggering.len() == 0 {
            actions.synth.push(MidiMessage::Three(176 + channel - 1, 17, 127));
        }
        let ghost stack0 = self.trigger_stack@;
        let ghost before_middle = actions.synth@;
        if velocity > 0 {
            let n = self.trigger_stack.len();
            if n > 0 {
                let (last_id, last_velocity) = self.trigger_stack[n - 1];
                actions.synth.push(MidiMessage::Three(128 + channel - 1, (last_id % 256) as u8, last_velocity));
            }
            self.trigger_stack.push((id, velocity));
            actions.synth.push(MidiMessage::Three(144 + channel - 1, (id % 256) as u8, velocity));
            self.triggering.insert(id);
        } else {
            let n = self.trigger_stack.len();
            let should_update = n > 0 && self.trigger_stack[n - 1].0 == id;
            if should_update {
                actions.synth.push(MidiMessage::Three(128 + channel - 1, (id % 256) as u8, 0));
            }
            let mut kept: Vec<(u32, u8)> = Vec::new();
            let mut i: usize = 0;
            while i < self.trigger_stack.len()
                invariant
                    i <= self.trigger_stack@.len(),
                    self.trigger_stack@ == stack0,
                    kept@ == stack0.subrange(0, i as int).filter(other_key(id)),
                decreases self.trigger_stack@.len() - i,
            {
                let e = self.trigger_stack[i];
                proof {
                    assert(stack0.subrange(0, i as int + 1) == stack0.subrange(0, i as int).push(e));
                    assert(stack0.subrange(0, i as int + 1).drop_last() == stack0.subrange(0, i as int));
                    reveal_with_fuel(Seq::filter, 1);
                }
                if e.0 != id {
                    kept.push(e);
                }
                i = i + 1;
            }
            proof {
                assert(stack0.subrange(0, stack0.len() as int) == stack0);
            }
            self.trigger_stack = kept;
            self.triggering.remove(&id);
            if should_update {
                let m = self.trigger_stack.len();
                if m > 0 {
                    let (last_id, last_velocity) = self.trigger_stack[m - 1];
                    actions.synth.push(MidiMessage::Three(144 + channel - 1, (last_id % 256) as u8, last_velocity));
                }
            }
            actions.follow_up.push(KBoardMessage::RefreshScale);
        }
        let ghost after_middle = actions.synth@;
        if self.triggering.len() == 0 {
            actions.synth.push(MidiMessage::Three(176 + channel - 1, 17, 0));
        }
        actions.follow_up.push(KBoardMessage::RefreshNote(id));
        proof {
            let cc = (175 + channel) as u8;
            let t0 = old(self).triggering@;
            let start = if t0.len() == 0 { seq![MidiMessage::Three(cc, 17, 127)] } else { Seq::<MidiMessage>::empty() };
            assert(before_middle =~= start);
            let middle = if velocity > 0 {
                (if stack0.len() > 0 {
                    seq![channel_note(128, channel, stack0.last().0, stack0.last().1)]
                } else {
                    Seq::<MidiMessage>::empty()
                }) + seq![channel_note(144, channel, id, velocity)]
            } else {
                let on_top = stack0.len() > 0 && stack0.last().0 == id;
                let rest = stack0.filter(other_key(id));
                if on_top {
                    seq![channel_note(128, channel, id, 0)] + if rest.len() > 0 {
                        seq![channel_note(144, channel, rest.last().0, rest.last().1)]
                    } else {
                        Seq::<MidiMessage>::empty()
                    }
                } else {
                    Seq::<MidiMessage>::empty()
                }
            };
            assert(after_middle =~= start + middle);
            let after = if velocity > 0 { t0.insert(id) } else { t0.remove(id) };
            assert(self.triggering@ == after);
            let end = if after.len() == 0 { seq![MidiMessage::Three(cc, 17, 0)] } else { Seq::<MidiMessage>::empty() };
            assert(actions.synth@ =~= start + middle + end);
            let s = synth_messages(channel, stack0, old(self).triggering@, id, velocity);
            assert(actions.synth@ =~= s);
        }
    }

    fn tick_lights(&self, value: u64, root: i32, actions: &mut KBoardActions)
        requires
            self.selecting_scale ==> root <= i32::MAX - 12,
            old(actions).lights@.len() == 0,
            old(actions).synth@.len() == 0,
            old(actions).poly@.len() == 0,
            old(actions).follow_up@.len() == 0,
            old(actions).input is None,
        ensures
            ({
                let blink = if value % 2 == 0 { 127u8 } else { 0u8 };
                let blink_selected = if value % 8 < 7 { 127u8 } else { 0u8 };
                let blink_root = if value % 8 < 4 { 127u8 } else { 0u8 };
                let root_lights = if self.selecting_scale {
                    seq![key_light(root as int, blink_root), key_light(root + 12, blink_root)]
                } else {
                    Seq::empty()
                };
                &&& final(actions).lights@.len() == root_lights.len() + self.triggering@.len() + self.selected@.len()
                &&& final(actions).lights@.take(root_lights.len() as int) == root_lights
                &&& final(actions).lights@.subrange(root_lights.len() as int, (root_lights.len() + self.triggering@.len()) as int).to_set()
                    == self.triggering@.map(|id: u32| key_light(id as int, blink))
                &&& final(actions).lights@.skip((root_lights.len() + self.triggering@.len()) as int).to_set()
                    == self.selected@.map(|id: u32| key_light(id as int, blink_selected))
                &&& final(actions).synth@.len() == 0 && final(actions).poly@.len() == 0
                &&& final(actions).follow_up@.len() == 0 && final(actions).input is None
            }),
    {
        broadcast use vstd::std_specs::hash::group_hash_axioms;
        let blink: u8 = if value % 2 == 0 { 127 } else { 0 };
        let blink_selected: u8 = if value % 8 < 7 { 127 } else { 0 };
        if self.selecting_scale {
            let blink_root: u8 = if value % 8 < 4 { 127 } else { 0 };
            actions.lights.push(MidiMessage::Three(144, low_byte(root), blink_root));
            actions.lights.push(MidiMessage::Three(144, low_byte(root + 12), blink_root));
        }
        let ghost roots = actions.lights@;
        let triggering = set_members(&self.triggering);
        let mut i: usize = 0;
        while i < triggering.len()
            invariant
                actions.synth@.len() == 0,
                actions.poly@.len() == 0,
                actions.follow_up@.len() == 0,
                actions.input is None,
                i <= triggering@.len(),
                actions.lights@ == roots + triggering@.take(i as int).map_values(|id: u32| key_light(id as int, blink)),
            decreases triggering@.len() - i,
        {
            actions.lights.push(MidiMessage::Three(144, (triggering[i] % 256) as u8, blink));
            proof {
                assert(triggering@.take(i + 1) == triggering@.take(i as int).push(triggering@[i as int]));
                assert(actions.lights@ =~= roots + triggering@.take(i + 1).map_values(|id: u32| key_light(id as int, blink)));
            }
            i = i + 1;
        }
        let ghost with_triggering = actions.lights@;
        let selected = set_members(&self.selected);
        let mut j: usize = 0;
        while j < selected.len()
            invariant
                actions.synth@.len() == 0,
                actions.poly@.len() == 0,
                actions.follow_up@.len() == 0,
                actions.input is None,
                j <= selected@.len(),
                actions.lights@ == with_triggering + selected@.take(j as int).map_values(|id: u32| key_light(id as int, blink_selected)),
            decreases selected@.len() - j,
        {
            actions.lights.push(MidiMessage::Three(144, (selected[j] % 256) as u8, blink_selected));
            proof {
                assert(selected@.take(j + 1) == selected@.take(j as int).push(selected@[j as int]));
                assert(actions.lights@ =~= with_triggering + selected@.take(j + 1).map_values(|id: u32| key_light(id as int, blink_selected)));
            }
            j = j + 1;
        }
        proof {
            assert(triggering@.take(triggering@.len() as int) == triggering@);
            assert(selected@.take(selected@.len() as int) == selected@);
            lemma_map_listing(triggering@, self.triggering@, blink);
            lemma_map_listing(selected@, self.selected@, blink_selected);
            triggering@.unique_seq_to_set();
            selected@.unique_seq_to_set();
            let root_lights = if self.selecting_scale {
                seq![key_light(root as int, if value % 8 < 4 { 127u8 } else { 0u8 }), key_light(root + 12, if value % 8 < 4 { 127u8 } else { 0u8 })]
            } else {
                Seq::empty()
            };
            assert(roots =~= root_lights);
            assert(actions.lights@.take(root_lights.len() as int) =~= root_lights);
            assert(actions.lights@.subrange(root_lights.len() as int, (root_lights.len() + triggering@.len()) as int)
                =~= triggering@.map_values(|id: u32| key_light(id as int, blink)));
            assert(actions.lights@.skip((root_lights.len() + triggering@.len()) as int)
                =~= selected@.map_values(|id: u32| key_light(id as int, blink_selected)));
        }
    }

    fn active_lights(&self, actions: &mut KBoardActions)
        requires
            old(actions).lights@.len() == 0,
            old(actions).synth@.len() == 0,
            old(actions).poly@.len() == 0,
            old(actions).follow_up@.len() == 0,
            old(actions).input is None,
        ensures
            final(actions).lights@.len() == 128 + self.active@.len(),
            final(actions).lights@.take(128) == Seq::new(128, |i: int| key_light(i, 0)),
            final(actions).lights@.skip(128).to_set() == self.active@.map(|id: u32| key_light(id as int, 127)),
            final(actions).synth@.len() == 0 && final(actions).poly@.len() == 0,
            final(actions).follow_up@.len() == 0 && final(actions).input is None,
    {
        broadcast use vstd::std_specs::hash::group_hash_axioms;
        let mut id: u32 = 0;
        while id < 128
            invariant
                actions.synth@.len() == 0,
                actions.poly@.len() == 0,
                actions.follow_up@.len() == 0,
                actions.input is None,
                id <= 128,
                actions.lights@ == Seq::new(id as nat, |i: int| key_light(i, 0)),
            decreases 128 - id,
        {
            actions.lights.push(MidiMessage::Three(144, id as u8, 0));
            proof {
                assert(Seq::new((id + 1) as nat, |i: int| key_light(i, 0)) =~= Seq::new(id as nat, |i: int| key_light(i, 0)).push(key_light(id as int, 0)));
            }
            id = id + 1;
        }
        let active = set_members(&self.active);
        let ghost first = actions.lights@;
        let mut i: usize = 0;
        while i < active.len()
            invariant
                actions.synth@.len() == 0,
                actions.poly@.len() == 0,
                actions.follow_up@.len() == 0,
                actions.input is None,
                active@.to_set() == self.active@,
                i <= active@.len(),
                actions.lights@ == first + active@.take(i as int).map_values(|id: u32| key_light(id as int, 127)),
            decreases active@.len() - i,
        {
            actions.lights.push(MidiMessage::Three(144, (active[i] % 256) as u8, 127));
            proof {
                assert(active@.take(i + 1) == active@.take(i as int).push(active@[i as int]));
                assert(actions.lights@ =~= first + active@.take(i + 1).map_values(|id: u32| key_light(id as int, 127)));
            }
            i = i + 1;
        }
        proof {
            assert(active@.take(active@.len() as int) == active@);
            lemma_map_listing(active@, self.active@, 127);
            assert(actions.lights@.take(128) =~= first);
            assert(actions.lights@.skip(128) =~= active@.map_values(|id: u32| key_light(id as int, 127)));
            active@.unique_seq_to_set();
        }
    }

    /// Handles a message. `scale_notes` holds the keys of the current scale, `root` its root
    /// note, and `refresh_due` whether enough time passed since the scale was last shown.
    pub fn handle(&mut self, message: KBoardMessage, scale_notes: &HashSet<u32>, root: i32, refresh_due: bool) -> (r: KBoardActions)
        requires
            old(self).channel <= 79,
            old(self).channel2 <= 111,
            message is Tick && old(self).selecting_scale ==> root <= i32::MAX - 12,
        ensures
            final(self).channel == old(self).channel,
            final(self).channel2 == old(self).channel2,
            final(self).selecting_scale == old(self).selecting_scale,
            match message {
                KBoardMessage::RefreshScale => {
                    &&& r.lights@ == if refresh_due && old(self).selecting_scale { scale_lights(scale_notes@) } else { Seq::empty() }
                    &&& r.synth@.len() == 0 && r.poly@.len() == 0 && r.follow_up@.len() == 0 && r.input is None
                    &&& *final(self) == *old(self)
                },
                KBoardMessage::RefreshActive => {
                    &&& r.lights@.len() == 128 + old(self).active@.len()
                    &&& r.lights@.take(128) == Seq::new(128, |i: int| key_light(i, 0))
                    &&& r.lights@.skip(128).to_set() == old(self).active@.map(|id: u32| key_light(id as int, 127))
                    &&& r.synth@.len() == 0 && r.poly@.len() == 0 && r.follow_up@.len() == 0 && r.input is None
                    &&& *final(self) == *old(self)
                },
                KBoardMessage::RefreshNote(id) => {
                    &&& r.lights@ == if old(self).selecting_scale {
                        Seq::empty()
                    } else {
                        seq![key_light(id as int, if old(self).triggering@.contains(id) || old(self).active@.contains(id) { 127u8 } else { 0u8 })]
                    }
                    &&& r.synth@.len() == 0 && r.poly@.len() == 0 && r.follow_up@.len() == 0 && r.input is None
                    &&& *final(self) == *old(self)
                },
                KBoardMessage::Trigger(id, velocity) => {
                    &&& r.poly@ == seq![if velocity > 0 {
                        channel_note(144, old(self).channel2, id, velocity)
                    } else {
                        channel_note(128, old(self).channel2, id, 0)
                    }]
                    &&& r.synth@ == synth_messages(old(self).channel, old(self).trigger_stack@, old(self).triggering@, id, velocity)
                    &&& final(self).trigger_stack@ == stack_after(old(self).trigger_stack@, id, velocity)
                    &&& final(self).triggering@ == if velocity > 0 { old(self).triggering@.insert(id) } else { old(self).triggering@.remove(id) }
                    &&& r.follow_up@ == if velocity > 0 {
                        seq![KBoardMessage::RefreshNote(id)]
                    } else {
                        seq![KBoardMessage::RefreshScale, KBoardMessage::RefreshNote(id)]
                    }
                    &&& r.lights@.len() == 0 && r.input is None
                    &&& final(self).active == old(self).active
                    &&& final(self).selected == old(self).selected
                },
                KBoardMessage::Input(id, velocity) => {
                    &&& r.input == Some((id, if velocity > 0 { OutputValue::On(velocity) } else { OutputValue::Off }))
                    &&& r.lights@.len() == 0 && r.synth@.len() == 0 && r.poly@.len() == 0 && r.follow_up@.len() == 0
                    &&& *final(self) == *old(self)
                },
                KBoardMessage::TriggerMode(change) => {
                    &&& r.lights@.len() == 0 && r.synth@.len() == 0 && r.poly@.len() == 0 && r.input is None
                    &&& final(self).triggering == old(self).triggering
                    &&& final(self).trigger_stack == old(self).trigger_stack
                    &&& match change {
                        TriggerModeChange::SelectingScale(_) => {
                            &&& r.follow_up@.len() == 0
                            &&& final(self).active == old(self).active
                            &&& final(self).selected == old(self).selected
                        },
                        TriggerModeChange::Active(id, on) => {
                            let after = if on { old(self).active@.insert(id) } else { old(self).active@.remove(id) };
                            &&& final(self).active@ == after
                            &&& final(self).selected == old(self).selected
                            &&& r.follow_up@ == if after != old(self).active@ { seq![KBoardMessage::RefreshNote(id)] } else { Seq::empty() }
                        },
                        TriggerModeChange::Selected(id, on) => {
                            let after = if on { old(self).selected@.insert(id) } else { old(self).selected@.remove(id) };
                            &&& final(self).selected@ == after
                            &&& final(self).active == old(self).active
                            &&& r.follow_up@ == if after != old(self).selected@ {
                                seq![KBoardMessage::RefreshNote(id), KBoardMessage::RefreshScale]
                            } else {
                                Seq::empty()
                            }
                        },
                    }
                },
                KBoardMessage::Tick(value) => {
                    let blink = if value % 2 == 0 { 127u8 } else { 0u8 };
                    let blink_selected = if value % 8 < 7 { 127u8 } else { 0u8 };
                    let blink_root = if value % 8 < 4 { 127u8 } else { 0u8 };
                    let root_lights = if old(self).selecting_scale {
                        seq![key_light(root as int, blink_root), key_light(root + 12, blink_root)]
                    } else {
                        Seq::empty()
                    };
                    &&& r.lights@.len() == root_lights.len() + old(self).triggering@.len() + old(self).selected@.len()
                    &&& r.lights@.take(root_lights.len() as int) == root_lights
                    &&& r.lights@.subrange(root_lights.len() as int, (root_lights.len() + old(self).triggering@.len()) as int).to_set()
                        == old(self).triggering@.map(|id: u32| key_light(id as int, blink))
                    &&& r.lights@.skip((root_lights.len() + old(self).triggering@.len()) as int).to_set()
                        == old(self).selected@.map(|id: u32| key_light(id as int, blink_selected))
                    &&& r.synth@.len() == 0 && r.poly@.len() == 0 && r.follow_up@.len() == 0 && r.input is None
                    &&& *final(self) == *old(self)
                },
            },
    {
        broadcast use vstd::std_specs::hash::group_hash_axioms;
        let mut actions = KBoardActions {
            lights: Vec::new(),
            synth: Vec::new(),
            poly: Vec::new(),
            follow_up: Vec::new(),
            input: None,
        };
        match message {
            KBoardMessage::RefreshScale => {
                if refresh_due && self.selecting_scale {
                    let mut id: u32 = 0;
                    while id < 25
                        invariant
                            *self == *old(self),
                            actions.synth@.len() == 0,
                            actions.poly@.len() == 0,
                            actions.follow_up@.len() == 0,
                            actions.input is None,
                            id <= 25,
                            actions.lights@ == scale_lights(scale_notes@).take(id as int),
                        decreases 25 - id,
                    {
                        let value: u8 = if scale_notes.contains(&id) { 127 } else { 0 };
                        actions.lights.push(MidiMessage::Three(144, id as u8, value));
                        proof {
                            assert(scale_lights(scale_notes@).take(id + 1) =~= scale_lights(scale_notes@).take(id as int).push(
                                key_light(id as int, value)));
                        }
                        id = id + 1;
                    }
                    proof {
                        assert(scale_lights(scale_notes@).take(25) =~= scale_lights(scale_notes@));
                    }
                }
            },
            KBoardMessage::RefreshActive => {
                self.active_lights(&mut actions);
            },
            KBoardMessage::RefreshNote(id) => {
                if !self.selecting_scale {
                    let value: u8 = if self.triggering.contains(&id) || self.active.contains(&id) { 127 } else { 0 };
                    actions.lights.push(MidiMessage::Three(144, (id % 256) as u8, value));
                }
            },
            KBoardMessage::Trigger(id, velocity) => {
                self.trigger_key(id, velocity, &mut actions);
            },
            KBoardMessage::Input(id, velocity) => {
                actions.input = Some((id, if velocity > 0 { OutputValue::On(velocity) } else { OutputValue::Off }));
            },
            KBoardMessage::TriggerMode(change) => {
                match change {
                    TriggerModeChange::SelectingScale(_) => {},
                    TriggerModeChange::Active(id, on) => {
                        let updated = if on { self.active.insert(id) } else { self.active.remove(&id) };
                        if updated {
                            actions.follow_up.push(KBoardMessage::RefreshNote(id));
                        }
                        proof {
                            if on {
                                if !updated {
                                    assert(old(self).active@.insert(id) =~= old(self).active@);
                                }
                            } else if !updated {
                                assert(old(self).active@.remove(id) =~= old(self).active@);
                            }
                            if updated {
                                if on {
                                    assert(!old(self).active@.insert(id).contains(id) == false);
                                    assert(old(self).active@.insert(id) != old(self).active@) by {
                                        assert(!old(self).active@.contains(id));
                                    }
                                } else {
                                    assert(old(self).active@.remove(id) != old(self).active@) by {
                                        assert(old(self).active@.contains(id));
                                        assert(!old(self).active@.remove(id).contains(id));
                                    }
                                }
                            }
                        }
                    },
                    TriggerModeChange::Selected(id, on) => {
                        let updated = if on { self.selected.insert(id) } else { self.selected.remove(&id) };
                        if updated {
                            actions.follow_up.push(KBoardMessage::RefreshNote(id));
                            actions.follow_up.push(KBoardMessage::RefreshScale);
                        }
                        proof {
                            if on {
                                if !updated {
                                    assert(old(self).selected@.insert(id) =~= old(self).selected@);
                                }
                            } else if !updated {
                                assert(old(self).selected@.remove(id) =~= old(self).selected@);
                            }
                            if updated {
                                if on {
                                    assert(old(self).selected@.insert(id) != old(self).selected@) by {
                                        assert(!old(self).selected@.contains(id));
                                    }
                                } else {
                                    assert(old(self).selected@.remove(id) != old(self).selected@) by {
                                        assert(old(self).selected@.contains(id));
                                        assert(!old(self).selected@.remove(id).contains(id));
                                    }
                                }
                            }
                        }
                    },
                }
            },
            KBoardMessage::Tick(value) => {
                self.tick_lights(value, root, &mut actions);
            },
        }
        actions
    }
}

/// Listing each member of a set once and lighting it gives the set's lights.
proof fn lemma_map_listing(members: Seq<u32>, set: Set<u32>, value: u8)
    requires
        members.to_set() == set,
    ensures
        members.map_values(|id: u32| key_light(id as int, value)).to_set() == set.map(|id: u32| key_light(id as int, value)),
{
    let lit = members.map_values(|id: u32| key_light(id as int, value));
    let target = set.map(|id: u32| key_light(id as int, value));
    assert forall|m: MidiMessage| #[trigger] lit.to_set().contains(m) implies target.contains(m) by {
        let i = choose|i: int| 0 <= i < lit.len() && lit[i] == m;
        assert(members.to_set().contains(members[i]));
    }
    assert forall|m: MidiMessage| #[trigger] target.contains(m) implies lit.to_set().contains(m) by {
        let id = choose|id: u32| set.contains(id) && key_light(id as int, value) == m;
        assert(members.to_set().contains(id));
        let i = choose|i: int| 0 <= i < members.len() && members[i] == id;
        assert(lit[i] == m);
    }
    assert(lit.to_set() =~= target);
}

} // verus!
