use vstd::prelude::*;

use crate::devices::{map_velocity, map_view, spec_map_velocity, velocity_map_defined, MidiMessage};
use crate::output_value::OutputValue;
use std::collections::HashMap;
use std::collections::HashSet;
use vstd::std_specs::iter::IteratorSpec;

verus! {

/// The pad number (note above 36) at pad position `p`: positions run along rows of four
/// from the top, pads are numbered along rows from the bottom; past the 24 pads, 24.
pub open spec fn pad_trigger(p: int) -> int {
    if 0 <= p < 24 { (5 - p / 4) * 4 + p % 4 } else { 24 }
}

/// Each of the 24 pad positions has its own pad number among 0 to 23: the top row of four
/// holds pads 20 to 23, each row below the four before it, left to right.
pub proof fn law_pad_positions(p: int, q: int)
    requires
        0 <= p < 24,
        0 <= q < 24,
    ensures
        0 <= pad_trigger(p) < 24,
        p < 4 ==> pad_trigger(p) == 20 + p,
        p >= 4 ==> pad_trigger(p) == pad_trigger(p - 4) - 4,
        p % 4 > 0 ==> pad_trigger(p) == pad_trigger(p - 1) + 1,
        p != q ==> pad_trigger(p) != pad_trigger(q),
{
}

/// The pad number at a pad position.
pub fn trigger_at(position: usize) -> (r: u8)
    ensures
        r == pad_trigger(position as int),
{
    let triggers: [u8; 24] = [20, 21, 22, 23, 16, 17, 18, 19, 12, 13, 14, 15, 8, 9, 10, 11, 4, 5, 6, 7, 0, 1, 2, 3];
    if position < 24 {
        proof {
            assert(triggers@ =~= seq![20u8, 21, 22, 23, 16, 17, 18, 19, 12, 13, 14, 15, 8, 9, 10, 11, 4, 5, 6, 7, 0, 1, 2, 3]);
        }
        triggers[position]
    } else {
        24
    }
}

/// The position of a pad number (its own inverse), 24 when there is no such pad.
pub fn position_of(trigger: u8) -> (r: u8)
    ensures
        r == (if trigger < 24 { pad_trigger(trigger as int) } else { 24 }),
        trigger < 24 ==> pad_trigger(r as int) == trigger,
{
    if trigger < 24 {
        trigger_at(trigger as usize)
    } else {
        24
    }
}

/// How many members of a set are below `id`.
pub open spec fn rank_in(set: Set<u32>, id: u32) -> int {
    set.filter(|x: u32| x < id).len() as int
}

/// Where a cue lands the selected pads: the first position they take. Two selected pads
/// cued on the second column start at the first; otherwise they start at the cued column,
/// moved left as far as needed to fit in the row of four.
pub open spec fn cue_start(position: int, selected: int) -> int {
    let row = position / 4;
    let col = position % 4;
    let start_col = if col == 1 && selected == 2 {
        0
    } else {
        let overflow = if col + selected - 4 > 0 { col + selected - 4 } else { 0 };
        if col - overflow > 0 { col - overflow } else { 0 }
    };
    row * 4 + start_col
}

/// A sampler whose pads the grid plays on bank channels, and whose cue button moves the
/// selected grid triggers onto the cued pad and the ones after it.
pub struct Sp404Mk2 {
    mappings: HashMap<u32, (u8, u8)>,
    selected: HashSet<u32>,
    output_values: HashMap<u32, (u8, u8, u8)>,
    velocity_map: Option<Vec<u8>>,
    sidechain_id: Option<u32>,
    updating: bool,
    outbox: Vec<MidiMessage>,
}

impl Sp404Mk2 {
    /// Channel and note each trigger plays.
    pub closed spec fn mapping(&self) -> Map<u32, (u8, u8)> {
        self.mappings@
    }

    /// Triggers selected for a cue.
    pub closed spec fn selection(&self) -> Set<u32> {
        self.selected@
    }

    /// Channel, note and velocity of each sounding trigger.
    pub closed spec fn sounding(&self) -> Map<u32, (u8, u8, u8)> {
        self.output_values@
    }

    /// Whether a cue moved triggers since the last tick.
    pub closed spec fn is_updating(&self) -> bool {
        self.updating
    }

    /// The messages to send, oldest first.
    pub closed spec fn messages(&self) -> Seq<MidiMessage> {
        self.outbox@
    }

    /// The optional velocity map.
    pub closed spec fn velocities(&self) -> Option<Seq<u8>> {
        map_view(&self.velocity_map)
    }

    /// The trigger that drives the sidechain.
    pub closed spec fn sidechain(&self) -> Option<u32> {
        self.sidechain_id
    }

    /// Every channel played is one of the first 111, so its note-on status fits a byte.
    pub closed spec fn well_formed(&self) -> bool {
        &&& forall|id: u32| #[trigger] self.mappings@.contains_key(id) ==> 1 <= self.mappings@[id].0 <= 111
        &&& forall|id: u32| #[trigger] self.output_values@.contains_key(id) ==> 1 <= self.output_values@[id].0 <= 111
    }

    /// A sampler with trigger `i` on the pad of the `i`-th (bank, row, column) entry (bank
    /// counted from 0, pads past the 24th left unmapped).
    pub fn new(default_mapping: &Vec<(u8, u8, u8)>, velocity_map: Option<Vec<u8>>, sidechain_id: Option<u32>) -> (r: Sp404Mk2)
        requires
            default_mapping@.len() <= u32::MAX,
            forall|i: int| 0 <= i < default_mapping@.len() ==> {
                let (bank, row, col) = #[trigger] default_mapping@[i];
                &&& bank < 110
                &&& row * 4 + col <= 255
            },
        ensures
            r.well_formed(),
            forall|i: u32| r.mapping().contains_key(i) <==> i < default_mapping@.len()
                && default_mapping@[i as int].1 * 4 + default_mapping@[i as int].2 < 24,
            forall|i: u32| #![auto] r.mapping().contains_key(i) ==> r.mapping()[i] == (
                (default_mapping@[i as int].0 + 1) as u8,
                (pad_trigger(default_mapping@[i as int].1 * 4 + default_mapping@[i as int].2) + 36) as u8,
            ),
            r.selection().is_empty(),
            r.sounding().is_empty(),
            !r.is_updating(),
            r.messages() == Seq::<MidiMessage>::empty(),
            r.velocities() == map_view(&velocity_map),
            r.sidechain() == sidechain_id,
    {
        broadcast use vstd::std_specs::hash::group_hash_axioms;
        let mut mappings: HashMap<u32, (u8, u8)> = HashMap::new();
        let mut i: usize = 0;
        while i < default_mapping.len()
            invariant
                i <= default_mapping@.len(),
                default_mapping@.len() <= u32::MAX,
                forall|k: int| 0 <= k < default_mapping@.len() ==> {
                    let (bank, row, col) = #[trigger] default_mapping@[k];
                    &&& bank < 110
                    &&& row * 4 + col <= 255
                },
                forall|k: u32| mappings@.contains_key(k) <==> k < i
                    && default_mapping@[k as int].1 * 4 + default_mapping@[k as int].2 < 24,
                forall|k: u32| #![auto] mappings@.contains_key(k) ==> mappings@[k] == (
                    (default_mapping@[k as int].0 + 1) as u8,
                    (pad_trigger(default_mapping@[k as int].1 * 4 + default_mapping@[k as int].2) + 36) as u8,
                ),
            decreases default_mapping@.len() - i,
        {
            let (bank, row, col) = default_mapping[i];
            let position = row * 4 + col;
            if position < 24 {
                let trigger = trigger_at(position as usize);
                let note = trigger + 36;
                mappings.insert(i as u32, (bank + 1, note));
            }
            i += 1;
        }
        Sp404Mk2 {
            mappings,
            selected: HashSet::new(),
            output_values: HashMap::new(),
            velocity_map,
            sidechain_id,
            updating: false,
            outbox: Vec::new(),
        }
    }

    /// A new tick: the cue light stops flashing, and a cue that arrived (`channel`
    /// above 0 and a pad note) moves the selected triggers, in ascending order, onto the
    /// pads from the cue's start on that channel.
    pub fn on_tick(&mut self, channel: u8, note: u8)
        requires
            old(self).well_formed(),
            old(self).selection().len() < 0x1000_0000,
            channel <= 16,
        ensures
            final(self).well_formed(),
            final(self).selection() == old(self).selection(),
            final(self).sounding() == old(self).sounding(),
            final(self).messages() == old(self).messages(),
            final(self).velocities() == old(self).velocities(),
            final(self).sidechain() == old(self).sidechain(),
            !(channel > 0 && note >= 36) ==> !final(self).is_updating() && final(self).mapping() == old(self).mapping(),
            channel > 0 && note >= 36 ==> {
                let position = if note - 36 < 24 { pad_trigger(note - 36) } else { 24 };
                let start = cue_start(position, old(self).selection().len() as int);
                &&& final(self).is_updating() == !old(self).selection().is_empty()
                &&& forall|id: u32| #![auto] final(self).mapping().contains_key(id)
                    <==> (old(self).mapping().contains_key(id) || old(self).selection().contains(id))
                &&& forall|id: u32| #![auto] old(self).selection().contains(id) ==> final(self).mapping()[id]
                    == (channel, (pad_trigger(start + rank_in(old(self).selection(), id)) + 36) as u8)
                &&& forall|id: u32| #![auto] !old(self).selection().contains(id) && old(self).mapping().contains_key(id)
                    ==> final(self).mapping()[id] == old(self).mapping()[id]
            },
    {
        broadcast use vstd::std_specs::hash::group_hash_axioms;
        self.updating = false;
        if channel > 0 && note >= 36 {
            let trigger = note - 36;
            let position = position_of(trigger) as i32;
            let row = position / 4;
            let col = position % 4;
            let count = self.selected.len() as i32;
            let start_col = if col == 1 && count == 2 {
                0
            } else {
                let offset = count;
                let overflow = if col + offset - 4 > 0 { col + offset - 4 } else { 0 };
                if col - overflow > 0 { col - overflow } else { 0 }
            };
            let start_position = (row * 4 + start_col) as usize;
            let members = crate::loop_grid::set_members(&self.selected);
            proof {
                members@.unique_seq_to_set();
            }
            let ghost old_map = self.mappings@;
            let ghost g0 = *self;
            let mut i: usize = 0;
            while i < members.len()
                invariant
                    *self == (Sp404Mk2 { mappings: self.mappings, updating: self.updating, ..g0 }),
                    g0.mappings@ == old_map,
                    forall|id: u32| #![auto] g0.output_values@.contains_key(id) ==> 1 <= g0.output_values@[id].0 <= 111,
                    i <= members@.len(),
                    members@.to_set() == self.selected@,
                    members@.no_duplicates(),
                    1 <= channel <= 16,
                    start_position == cue_start(position as int, self.selected@.len() as int),
                    start_position <= 24,
                    members@.len() == self.selected@.len(),
                    members@.len() < 0x1000_0000,
                    self.updating == (i > 0),
                    forall|id: u32| #![trigger self.mappings@.contains_key(id)] self.mappings@.contains_key(id)
                        <==> (old_map.contains_key(id) || members@.take(i as int).contains(id)),
                    forall|id: u32| #![auto] members@.take(i as int).contains(id) ==> self.mappings@[id]
                        == (channel, (pad_trigger(start_position + rank_in(self.selected@, id)) + 36) as u8),
                    forall|id: u32| #![auto] !members@.take(i as int).contains(id) && old_map.contains_key(id)
                        ==> self.mappings@[id] == old_map[id],
                    forall|id: u32| #![auto] self.mappings@.contains_key(id) ==> 1 <= self.mappings@[id].0 <= 111,
                decreases members@.len() - i,
            {
                let id = members[i];
                let rank = rank_among(&members, id);
                let trigger = trigger_at(start_position + rank);
                let note = trigger + 36;
                let ghost before = self.mappings@;
                self.mappings.insert(id, (channel, note));
                self.updating = true;
                proof {
                    assert(members@.to_set().contains(id)) by {
                        assert(members@[i as int] == id);
                    }
                    assert(!members@.take(i as int).contains(id)) by {
                        if members@.take(i as int).contains(id) {
                            let j = choose|j: int| 0 <= j < i && #[trigger] members@.take(i as int)[j] == id;
                            assert(members@[j] == members@[i as int]);
                        }
                    }
                    assert(self.mappings@ == before.insert(id, (channel, note)));
                    assert(members@.take(i as int + 1) == members@.take(i as int).push(id));
                    assert forall|x: u32| #![auto] members@.take(i as int + 1).contains(x)
                        <==> (members@.take(i as int).contains(x) || x == id) by {
                        if members@.take(i as int + 1).contains(x) && x != id {
                            let j = choose|j: int| 0 <= j < i + 1 && #[trigger] members@.take(i as int + 1)[j] == x;
                            assert(members@.take(i as int)[j] == x);
                        }
                        if x == id {
                            assert(members@.take(i as int + 1)[i as int] == x);
                        }
                    }
                    assert forall|x: u32| #![trigger self.mappings@.contains_key(x)] self.mappings@.contains_key(x)
                        <==> (old_map.contains_key(x) || members@.take(i as int + 1).contains(x)) by {
                        if x != id {
                            assert(self.mappings@.contains_key(x) == before.contains_key(x));
                            assert(before.contains_key(x) <==> (old_map.contains_key(x) || members@.take(i as int).contains(x)));
                            assert(members@.take(i as int + 1).contains(x) == members@.take(i as int).contains(x));
                        } else {
                            assert(members@.take(i as int + 1).contains(x));
                        }
                    }
                    assert forall|x: u32| #![auto] members@.take(i as int + 1).contains(x) ==> self.mappings@[x]
                        == (channel, (pad_trigger(start_position + rank_in(self.selected@, x)) + 36) as u8) by {
                        if x != id && members@.take(i as int + 1).contains(x) {
                            assert(members@.take(i as int).contains(x));
                        }
                    }
                    assert forall|x: u32| #![auto] !members@.take(i as int + 1).contains(x) && old_map.contains_key(x)
                        ==> self.mappings@[x] == old_map[x] by {
                        if !members@.take(i as int + 1).contains(x) {
                            assert(!members@.take(i as int).contains(x));
                            assert(x != id);
                        }
                    }
                }
                i += 1;
            }
            proof {
                assert(members@.take(members@.len() as int) == members@);
                assert forall|id: u32| #![auto] members@.contains(id) <==> self.selected@.contains(id) by {
                    assert(members@.to_set().contains(id) <==> members@.contains(id));
                }
            }
        }
    }

    /// Whether a trigger's light shows: mapped triggers light, except selected ones
    /// while a cue is moving them.
    pub fn check_lit(&self, id: u32) -> (r: bool)
        ensures
            r == (!(self.is_updating() && self.selection().contains(id)) && self.mapping().contains_key(id)),
    {
        broadcast use vstd::std_specs::hash::group_hash_axioms;
        if self.updating && self.selected.contains(&id) {
            false
        } else {
            self.mappings.contains_key(&id)
        }
    }

    /// Selects or unselects a trigger for cueing.
    pub fn select(&mut self, id: u32, selected: bool)
        ensures
            final(self).selection() == (if selected { old(self).selection().insert(id) } else { old(self).selection().remove(id) }),
            final(self).mapping() == old(self).mapping(),
            final(self).sounding() == old(self).sounding(),
            final(self).messages() == old(self).messages(),
            final(self).is_updating() == old(self).is_updating(),
            final(self).velocities() == old(self).velocities(),
            final(self).sidechain() == old(self).sidechain(),
            old(self).well_formed() ==> final(self).well_formed(),
    {
        broadcast use vstd::std_specs::hash::group_hash_axioms;
        if selected {
            self.selected.insert(id);
        } else {
            self.selected.remove(&id);
        }
    }

    /// Plays a trigger: a press sends its pad's note with the mapped velocity (when it is
    /// mapped) and remembers it; a release ends the note it sounds. Answers whether the
    /// press is the sidechain trigger's, which ducks the sidechained outputs.
    pub fn trigger(&mut self, id: u32, value: OutputValue) -> (duck: bool)
        requires
            old(self).well_formed(),
            value matches OutputValue::On(v) ==> velocity_map_defined(old(self).velocities(), v),
        ensures
            final(self).well_formed(),
            final(self).mapping() == old(self).mapping(),
            final(self).selection() == old(self).selection(),
            final(self).is_updating() == old(self).is_updating(),
            final(self).velocities() == old(self).velocities(),
            final(self).sidechain() == old(self).sidechain(),
            match value {
                OutputValue::Off => {
                    &&& !duck
                    &&& final(self).sounding() == old(self).sounding().remove(id)
                    &&& final(self).messages() == if old(self).sounding().contains_key(id) {
                        let (channel, note, _) = old(self).sounding()[id];
                        old(self).messages().push(MidiMessage::Three((128 + channel - 1) as u8, note, 0))
                    } else {
                        old(self).messages()
                    }
                },
                OutputValue::On(v) => {
                    let velocity = spec_map_velocity(old(self).velocities(), v);
                    if old(self).mapping().contains_key(id) {
                        let (channel, note) = old(self).mapping()[id];
                        &&& final(self).messages() == old(self).messages().push(
                            MidiMessage::Three((144 + channel - 1) as u8, note, velocity))
                        &&& final(self).sounding() == old(self).sounding().insert(id, (channel, note, velocity))
                        &&& duck == (old(self).sidechain() == Some(id))
                    } else {
                        &&& final(self).messages() == old(self).messages()
                        &&& final(self).sounding() == old(self).sounding()
                        &&& !duck
                    }
                },
            },
    {
        broadcast use vstd::std_specs::hash::group_hash_axioms;
        match value {
            OutputValue::Off => {
                if let Some(sounding) = self.output_values.get(&id) {
                    let (channel, note, _velocity) = *sounding;
                    self.outbox.push(MidiMessage::Three(128 + channel - 1, note, 0));
                }
                self.output_values.remove(&id);
                false
            }
            OutputValue::On(velocity) => {
                let velocity = map_velocity(&self.velocity_map, velocity);
                if let Some(mapped) = self.mappings.get(&id) {
                    let (channel, note) = *mapped;
                    self.outbox.push(MidiMessage::Three(144 + channel - 1, note, velocity));
                    self.output_values.insert(id, (channel, note, velocity));
                    match self.sidechain_id {
                        Some(s) => s == id,
                        None => false,
                    }
                } else {
                    false
                }
            }
        }
    }

    /// Hands out the messages to send, oldest first.
    pub fn take_messages(&mut self) -> (r: Vec<MidiMessage>)
        ensures
            r@ == old(self).messages(),
            final(self).messages() == Seq::<MidiMessage>::empty(),
            final(self).mapping() == old(self).mapping(),
            final(self).selection() == old(self).selection(),
            final(self).sounding() == old(self).sounding(),
            final(self).is_updating() == old(self).is_updating(),
            final(self).velocities() == old(self).velocities(),
            final(self).sidechain() == old(self).sidechain(),
            old(self).well_formed() ==> final(self).well_formed(),
    {
        let mut taken: Vec<MidiMessage> = Vec::new();
        std::mem::swap(&mut taken, &mut self.outbox);
        taken
    }
}

/// How many of the listed ids are below `id`.
fn rank_among(members: &Vec<u32>, id: u32) -> (r: usize)
    requires
        members@.no_duplicates(),
        members@.len() < 0x1000_0000,
    ensures
        r == rank_in(members@.to_set(), id),
        r <= members@.len(),
{
    let mut count: usize = 0;
    let mut i: usize = 0;
    let ghost mut below: Set<u32> = Set::empty();
    while i < members.len()
        invariant
            i <= members@.len(),
            members@.no_duplicates(),
            below == members@.take(i as int).to_set().filter(|x: u32| x < id),
            below.finite(),
            count == below.len(),
            count <= i,
        decreases members@.len() - i,
    {
        let x = members[i];
        proof {
            assert(members@.take(i as int + 1) == members@.take(i as int).push(x));
            members@.take(i as int).lemma_push_to_set_commute(x);
            assert(!members@.take(i as int).contains(x)) by {
                if members@.take(i as int).contains(x) {
                    let j = choose|j: int| 0 <= j < i && #[trigger] members@.take(i as int)[j] == x;
                    assert(members@[j] == members@[i as int]);
                }
            }
        }
        if x < id {
            proof {
                assert(members@.take(i as int + 1).to_set().filter(|y: u32| y < id) =~= below.insert(x));
                assert(!below.contains(x));
                below = below.insert(x);
            }
            count += 1;
        } else {
            proof {
                assert(members@.take(i as int + 1).to_set().filter(|y: u32| y < id) =~= below);
            }
        }
        i += 1;
    }
    proof {
        assert(members@.take(members@.len() as int) == members@);
    }
    count
}

/// The key a held pad is remembered under: its channel and note.
pub open spec fn held_key(channel: int, note: int) -> u16 {
    (channel * 256 + note) as u16
}

/// Watches the sampler's own messages for a cue. In cue mode a pad sends only its
/// note-off, so a note-off (on channels 1 to 10 or 16) that follows no note-on of the same
/// channel and note is a cue of that pad; answers its channel and note.
pub fn detect_cue(note_down: &mut HashSet<u16>, message: &[u8]) -> (r: Option<(u8, u8)>)
    requires
        message@.len() >= 1,
        128 <= message@[0] < 154 ==> message@.len() >= 2,
    ensures
        ({
            let m0 = message@[0] as int;
            if 144 <= m0 < 154 {
                &&& r is None
                &&& final(note_down)@ == old(note_down)@.insert(held_key(m0 - 143, message@[1] as int))
            } else if 128 <= m0 < 144 && (m0 - 127 <= 10 || m0 - 127 == 16) {
                let key = held_key(m0 - 127, message@[1] as int);
                if old(note_down)@.contains(key) {
                    &&& r is None
                    &&& final(note_down)@ == old(note_down)@.remove(key)
                } else {
                    &&& r == Some(((m0 - 127) as u8, message@[1]))
                    &&& final(note_down)@ == old(note_down)@
                }
            } else {
                &&& r is None
                &&& final(note_down)@ == old(note_down)@
            }
        }),
{
    broadcast use vstd::std_specs::hash::group_hash_axioms;
    if message[0] >= 144 && message[0] < 154 {
        let channel = message[0] - 144 + 1;
        note_down.insert(channel as u16 * 256 + message[1] as u16);
        None
    } else if message[0] >= 128 && message[0] < 144 {
        let channel = message[0] - 128 + 1;
        if channel <= 10 || channel == 16 {
            let key = channel as u16 * 256 + message[1] as u16;
            if note_down.contains(&key) {
                note_down.remove(&key);
                None
            } else {
                Some((channel, message[1]))
            }
        } else {
            None
        }
    } else {
        None
    }
}

} // verus!
