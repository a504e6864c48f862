use vstd::prelude::*;

use crate::devices::{map_velocity, map_view, spec_map_velocity, velocity_map_defined, MidiMessage};
use crate::output_value::OutputValue;
use std::collections::{HashMap, HashSet};
use vstd::std_specs::iter::IteratorSpec;

verus! {

/// Where in the scale key `id` lands: the key plus the scale's base and offset; with
/// wrapping, an offset of less than a scale's length that pushes the key's column past
/// the end of the row (or before its start) is taken back (or forward) by one octave of
/// seven degrees, inverting the chord.
pub open spec fn spec_scale_position(id: u32, base: i32, offset: i32, offset_wrap: bool) -> int {
    let col = id % 8;
    let shift = base + offset;
    let wrapped = if offset_wrap && -7 < offset < 7 {
        if col + offset > 8 {
            shift - 7
        } else if col + offset < 0 {
            shift + 7
        } else {
            shift
        }
    } else {
        shift
    };
    id + wrapped
}

/// The degree of the scale that key `id` plays (the scale itself turns it into a note).
pub fn scale_position(id: u32, base: i32, offset: i32, offset_wrap: bool) -> (r: i32)
    requires
        id <= 0x1000_0000,
        -0x1000_0000 <= base <= 0x1000_0000,
        -0x1000_0000 <= offset <= 0x1000_0000,
    ensures
        r == spec_scale_position(id, base, offset, offset_wrap),
{
    let mut scale_offset = base + offset;
    let col = (id % 8) as i32;
    if offset_wrap {
        if offset > -7 && offset < 7 {
            if col + offset > 8 {
                scale_offset = scale_offset - 7;
            } else if col + offset < 0 {
                scale_offset = scale_offset + 7;
            }
        }
    }
    id as i32 + scale_offset
}

/// A note byte read as a signed byte.
pub open spec fn signed_note(note: u8) -> int {
    if note < 128 { note as int } else { note - 256 }
}

/// A note whose shift by the key's offset stays a signed byte.
pub open spec fn note_fits(note: u8, midi_offset: i8) -> bool {
    -128 <= signed_note(note) + midi_offset <= 127
}

/// The note sent for a note: shifted by the offset and kept within 0..=127.
pub open spec fn played_note(note: u8, midi_offset: i8) -> u8 {
    let x = signed_note(note) + midi_offset;
    if x < 0 { 0 } else if x > 127 { 127 } else { x as u8 }
}

/// Note-on for a note on channel `ch`.
pub open spec fn key_on(ch: u8, midi_offset: i8, note: u8, velocity: u8) -> MidiMessage {
    MidiMessage::Three((143 + ch) as u8, played_note(note, midi_offset), velocity)
}

/// Note-off for a note on channel `ch`.
pub open spec fn key_off(ch: u8, midi_offset: i8, note: u8) -> MidiMessage {
    MidiMessage::Three((127 + ch) as u8, played_note(note, midi_offset), 0)
}

/// Pressing key `id` with a note: unless it already sounds, its note starts and it is held.
pub open spec fn press(
    ch: u8,
    midi_offset: i8,
    held: Map<u32, (u8, u8)>,
    sent: Seq<MidiMessage>,
    id: u32,
    velocity: u8,
    note: u8,
) -> (Map<u32, (u8, u8)>, Seq<MidiMessage>) {
    if held.contains_key(id) {
        (held, sent)
    } else {
        (held.insert(id, (note, velocity)), sent.push(key_on(ch, midi_offset, note, velocity)))
    }
}

/// Letting go of key `id`: if it sounds, its note stops and it is no longer held.
pub open spec fn release(
    ch: u8,
    midi_offset: i8,
    held: Map<u32, (u8, u8)>,
    sent: Seq<MidiMessage>,
    id: u32,
) -> (Map<u32, (u8, u8)>, Seq<MidiMessage>) {
    if held.contains_key(id) {
        (held.remove(id), sent.push(key_off(ch, midi_offset, held[id].0)))
    } else {
        (held, sent)
    }
}

/// Pressing a key that is not sounding and letting it go leaves the sounding keys as they
/// were, and sends its note on and then off.
pub proof fn law_press_release_restores(
    ch: u8,
    midi_offset: i8,
    held: Map<u32, (u8, u8)>,
    sent: Seq<MidiMessage>,
    id: u32,
    velocity: u8,
    note: u8,
)
    requires
        !held.contains_key(id),
    ensures
        ({
            let (h1, s1) = press(ch, midi_offset, held, sent, id, velocity, note);
            let (h2, s2) = release(ch, midi_offset, h1, s1, id);
            &&& h2 == held
            &&& s2 == sent.push(key_on(ch, midi_offset, note, velocity)).push(key_off(ch, midi_offset, note))
        }),
{
    let (h1, s1) = press(ch, midi_offset, held, sent, id, velocity, note);
    assert(h1.remove(id) =~= held);
}

/// A keyboard part that plays keys as notes of the current scale (looked up by the
/// caller for every key), either polyphonic or monophonic (the latest key sounds, and
/// releasing it brings back the one held before).
pub struct MidiKeys {
    midi_channel: u8,
    output_values: HashMap<u32, (u8, u8)>,
    midi_offset: i8,
    velocity_map: Option<Vec<u8>>,
    octave_offset: i32,
    offset_wrap: bool,
    trigger_stack: Vec<u32>,
    last_velocity: u8,
    monophonic: bool,
    outbox: Vec<MidiMessage>,
}

impl MidiKeys {
    /// The channel is a MIDI channel and every held note can be shifted by the offset.
    pub closed spec fn well_formed(&self) -> bool {
        &&& 1 <= self.channel() <= 16
        &&& forall|k: u32| #[trigger] self.held().contains_key(k) ==> note_fits(self.held()[k].0, self.offset())
    }

    proof fn lemma_same_shape(a: MidiKeys, b: MidiKeys)
        requires
            a.well_formed(),
            a.channel() == b.channel(),
            a.held() == b.held(),
            a.offset() == b.offset(),
        ensures
            b.well_formed(),
    {
        assert forall|k: u32| #[trigger] b.held().contains_key(k) implies note_fits(b.held()[k].0, b.offset()) by {
            assert(a.held().contains_key(k));
        }
    }

    /// The channel played (1 to 16).
    pub closed spec fn channel(&self) -> u8 {
        self.midi_channel
    }

    /// Note and velocity of each sounding key.
    pub closed spec fn held(&self) -> Map<u32, (u8, u8)> {
        self.output_values@
    }

    /// Added to every note sent.
    pub closed spec fn offset(&self) -> i8 {
        self.midi_offset
    }

    /// The optional velocity map.
    pub closed spec fn velocities(&self) -> Option<Seq<u8>> {
        map_view(&self.velocity_map)
    }

    /// Octaves the scale lookup adds to every note.
    pub closed spec fn octave(&self) -> i32 {
        self.octave_offset
    }

    /// Whether the scale lookup inverts chords that run off the row.
    pub closed spec fn wraps(&self) -> bool {
        self.offset_wrap
    }

    /// The keys held in a monophonic part, in the order they were pressed.
    pub closed spec fn stack(&self) -> Seq<u32> {
        self.trigger_stack@
    }

    /// The velocity of the latest press.
    pub closed spec fn last_velocity(&self) -> u8 {
        self.last_velocity
    }

    /// Whether only the latest key sounds.
    pub closed spec fn mono(&self) -> bool {
        self.monophonic
    }

    /// The messages to send, oldest first.
    pub closed spec fn messages(&self) -> Seq<MidiMessage> {
        self.outbox@
    }

    /// A part on `midi_channel` (1 to 16) with nothing held; the last velocity starts at full.
    pub fn new(
        midi_channel: u8,
        octave_offset: i32,
        velocity_map: Option<Vec<u8>>,
        offset_wrap: bool,
        monophonic: bool,
        midi_offset: i8,
    ) -> (r: MidiKeys)
        requires
            1 <= midi_channel <= 16,
        ensures
            r.well_formed(),
            r.channel() == midi_channel,
            r.octave() == octave_offset,
            r.velocities() == map_view(&velocity_map),
            r.wraps() == offset_wrap,
            r.mono() == monophonic,
            r.offset() == midi_offset,
            r.held().is_empty(),
            r.stack() == Seq::<u32>::empty(),
            r.last_velocity() == 127,
            r.messages() == Seq::<MidiMessage>::empty(),
    {
        MidiKeys {
            midi_channel,
            velocity_map,
            output_values: HashMap::new(),
            octave_offset,
            offset_wrap,
            last_velocity: 127,
            trigger_stack: Vec::new(),
            monophonic,
            midi_offset,
            outbox: Vec::new(),
        }
    }

    /// Octaves the scale lookup adds to every note.
    pub fn octave_offset(&self) -> (r: i32)
        ensures
            r == self.octave(),
    {
        self.octave_offset
    }

    /// Whether the scale lookup inverts chords that run off the row.
    pub fn offset_wrap(&self) -> (r: bool)
        ensures
            r == self.wraps(),
    {
        self.offset_wrap
    }

    fn played(&self, note: u8) -> (r: u8)
        requires
            note_fits(note, self.offset()),
        ensures
            r == played_note(note, self.offset()),
    {
        let signed: i16 = if note < 128 { note as i16 } else { note as i16 - 256 };
        let x: i16 = signed + self.midi_offset as i16;
        if x < 0 { 0 } else if x > 127 { 127 } else { x as u8 }
    }

    fn trigger_on(&mut self, id: u32, velocity: u8, note: u8)
        requires
            old(self).well_formed(),
            note_fits(note, old(self).offset()),
        ensures
            final(self).well_formed(),
            (final(self).held(), final(self).messages()) == press(old(self).channel(), old(self).offset(),
                old(self).held(), old(self).messages(), id, velocity, note),
            *final(self) == (MidiKeys { output_values: final(self).output_values, outbox: final(self).outbox, ..*old(self) }),
    {
        broadcast use vstd::std_specs::hash::group_hash_axioms;
        if self.output_values.contains_key(&id) {
            return;
        }
        let played = self.played(note);
        self.outbox.push(MidiMessage::Three(144 + self.midi_channel - 1, played, velocity));
        self.output_values.insert(id, (note, velocity));
        proof {
            assert forall|k: u32| #[trigger] self.held().contains_key(k) implies note_fits(self.held()[k].0, self.offset()) by {
                if k != id {
                    assert(old(self).held().contains_key(k));
                }
            }
        }
    }

    fn trigger_off(&mut self, id: u32)
        requires
            old(self).well_formed(),
        ensures
            final(self).well_formed(),
            (final(self).held(), final(self).messages()) == release(old(self).channel(), old(self).offset(),
                old(self).held(), old(self).messages(), id),
            *final(self) == (MidiKeys { output_values: final(self).output_values, outbox: final(self).outbox, ..*old(self) }),
    {
        broadcast use vstd::std_specs::hash::group_hash_axioms;
        if let Some(entry) = self.output_values.get(&id) {
            let (note, _) = *entry;
            let played = self.played(note);
            self.outbox.push(MidiMessage::Three(128 + self.midi_channel - 1, played, 0));
            self.output_values.remove(&id);
        }
        proof {
            assert forall|k: u32| #[trigger] self.held().contains_key(k) implies note_fits(self.held()[k].0, self.offset()) by {
                assert(old(self).held().contains_key(k));
            }
        }
    }

    /// A key changed value; `notes[k]` is the note key `k` plays in the current scale.
    /// A press of a key not already held starts its note with the mapped velocity (which
    /// becomes the last velocity); in a monophonic part the key sounding before stops and
    /// the key goes on top. A release in a monophonic part takes the key out of the
    /// order and starts the key now on top again (with the last velocity); then the
    /// released key's note stops.
    pub fn trigger(&mut self, id: u32, value: OutputValue, notes: &Vec<u8>)
        requires
            old(self).well_formed(),
            id < notes@.len(),
            forall|i: int| 0 <= i < old(self).stack().len() ==> #[trigger] old(self).stack()[i] < notes@.len(),
            forall|i: int| 0 <= i < notes@.len() ==> note_fits(#[trigger] notes@[i], old(self).offset()),
            value matches OutputValue::On(v) ==> velocity_map_defined(old(self).velocities(), v),
        ensures
            final(self).well_formed(),
            final(self).channel() == old(self).channel(),
            final(self).offset() == old(self).offset(),
            final(self).velocities() == old(self).velocities(),
            final(self).octave() == old(self).octave(),
            final(self).wraps() == old(self).wraps(),
            final(self).mono() == old(self).mono(),
            ({
                let ch = old(self).channel();
                let off = old(self).offset();
                let stack = old(self).stack();
                match value {
                    OutputValue::On(v0) => if stack.contains(id) {
                        *final(self) == *old(self)
                    } else {
                        let v = spec_map_velocity(old(self).velocities(), v0);
                        let (h1, s1) = press(ch, off, old(self).held(), old(self).messages(), id, v, notes@[id as int]);
                        let (h2, s2) = if old(self).mono() && stack.len() > 0 {
                            release(ch, off, h1, s1, stack.last())
                        } else {
                            (h1, s1)
                        };
                        &&& final(self).held() == h2
                        &&& final(self).messages() == s2
                        &&& final(self).last_velocity() == v
                        &&& final(self).stack() == if old(self).mono() { stack.push(id) } else { stack }
                    },
                    OutputValue::Off => {
                        let kept = if old(self).mono() { stack.filter(|x: u32| x != id) } else { stack };
                        let (h1, s1) = if old(self).mono() && kept.len() > 0 {
                            press(ch, off, old(self).held(), old(self).messages(), kept.last(),
                                old(self).last_velocity(), notes@[kept.last() as int])
                        } else {
                            (old(self).held(), old(self).messages())
                        };
                        let (h2, s2) = release(ch, off, h1, s1, id);
                        &&& final(self).held() == h2
                        &&& final(self).messages() == s2
                        &&& final(self).last_velocity() == old(self).last_velocity()
                        &&& final(self).stack() == kept
                    },
                }
            }),
    {
        match value {
            OutputValue::Off => {
                if self.monophonic {
                    let ghost before = self.trigger_stack@;
                    let mut kept: Vec<u32> = Vec::new();
                    let mut i: usize = 0;
                    while i < self.trigger_stack.len()
                        invariant
                            i <= self.trigger_stack@.len(),
                            *self == *old(self),
                            self.trigger_stack@ == before,
                            kept@ == before.subrange(0, i as int).filter(|x: u32| x != id),
                        decreases self.trigger_stack@.len() - i,
                    {
                        let x = self.trigger_stack[i];
                        proof {
                            assert(before.subrange(0, i as int + 1) == before.subrange(0, i as int).push(x));
                            assert(before.subrange(0, i as int + 1).drop_last() == before.subrange(0, i as int));
                            reveal_with_fuel(Seq::filter, 1);
                        }
                        if x != id {
                            kept.push(x);
                        }
                        i += 1;
                    }
                    proof {
                        assert(before.subrange(0, before.len() as int) == before);
                        assert(before == old(self).stack());
                    }
                    self.trigger_stack = kept;
                    proof {
                        MidiKeys::lemma_same_shape(*old(self), *self);
                    }
                    let n = self.trigger_stack.len();
                    if n > 0 {
                        let top = self.trigger_stack[n - 1];
                        proof {
                            assert(self.trigger_stack@.contains(top));
                            before.lemma_filter_contains_rev(|x: u32| x != id, top);
                            let j = choose|j: int| 0 <= j < before.len() && before[j] == top;
                            assert(before[j] < notes@.len());
                        }
                        let velocity = self.last_velocity;
                        self.trigger_on(top, velocity, notes[top as usize]);
                    }
                }
                self.trigger_off(id);
            },
            OutputValue::On(velocity) => {
                let mut i: usize = 0;
                let mut found = false;
                while i < self.trigger_stack.len()
                    invariant
                        i <= self.trigger_stack@.len(),
                        *self == *old(self),
                        !found ==> forall|j: int| 0 <= j < i ==> self.trigger_stack@[j] != id,
                        found ==> self.trigger_stack@.contains(id),
                    decreases self.trigger_stack@.len() - i,
                {
                    if self.trigger_stack[i] == id {
                        found = true;
                    }
                    i += 1;
                }
                if found {
                    proof {
                        MidiKeys::lemma_same_shape(*old(self), *self);
                    }
                    return;
                }
                let velocity = map_velocity(&self.velocity_map, velocity);
                self.last_velocity = velocity;
                proof {
                    MidiKeys::lemma_same_shape(*old(self), *self);
                }
                self.trigger_on(id, velocity, notes[id as usize]);
                if self.monophonic {
                    let n = self.trigger_stack.len();
                    if n > 0 {
                        let top = self.trigger_stack[n - 1];
                        self.trigger_off(top);
                    }
                    let ghost before_push = *self;
                    self.trigger_stack.push(id);
                    proof {
                        MidiKeys::lemma_same_shape(before_push, *self);
                    }
                }
            },
        }
    }

    /// Hands out the messages to send, oldest first.
    pub fn take_messages(&mut self) -> (r: Vec<MidiMessage>)
        ensures
            r@ == old(self).messages(),
            final(self).messages() == Seq::<MidiMessage>::empty(),
            final(self).well_formed() == old(self).well_formed(),
            final(self).channel() == old(self).channel(),
            final(self).held() == old(self).held(),
            final(self).offset() == old(self).offset(),
            final(self).velocities() == old(self).velocities(),
            final(self).octave() == old(self).octave(),
            final(self).wraps() == old(self).wraps(),
            final(self).stack() == old(self).stack(),
            final(self).last_velocity() == old(self).last_velocity(),
            final(self).mono() == old(self).mono(),
    {
        let mut taken: Vec<MidiMessage> = Vec::new();
        std::mem::swap(&mut taken, &mut self.outbox);
        proof {
            if old(self).well_formed() {
                MidiKeys::lemma_same_shape(*old(self), *self);
            }
            if self.well_formed() {
                MidiKeys::lemma_same_shape(*self, *old(self));
            }
        }
        taken
    }
}


/// The keys a part holds after the scale changed: each keeps its velocity and takes the
/// note it plays in the new scale.
pub open spec fn rescaled(held: Map<u32, (u8, u8)>, notes: Seq<u8>) -> Map<u32, (u8, u8)> {
    Map::new(|k: u32| held.contains_key(k), |k: u32| (notes[k as int], held[k].1))
}

/// Velocity `v` is the loudest with which some key sounds note `n`.
pub open spec fn is_top(held: Map<u32, (u8, u8)>, n: u8, v: u8) -> bool {
    &&& v > 0
    &&& exists|k: u32| #[trigger] held.contains_key(k) && held[k] == (n, v)
    &&& forall|k: u32| #[trigger] held.contains_key(k) && held[k].0 == n && held[k].1 > 0 ==> held[k].1 <= v
}

/// The velocity note `n` sounds with (the loudest key on it), if any key sounds it.
pub open spec fn top_velocity(held: Map<u32, (u8, u8)>, n: u8) -> Option<u8> {
    if exists|v: u8| is_top(held, n, v) { Some(choose|v: u8| is_top(held, n, v)) } else { None }
}

/// The notes a scale change touches: the old and the new note of every sounding key whose
/// note changes.
pub open spec fn moved_notes(held: Map<u32, (u8, u8)>, notes: Seq<u8>) -> Set<u8> {
    Set::new(|n: u8| exists|k: u32| #[trigger] held.contains_key(k) && held[k].1 > 0
        && held[k].0 != notes[k as int] && (n == held[k].0 || n == notes[k as int]))
}

/// The touched notes that (re)start, with their new velocity: those that sound after the
/// change at another velocity than before (or did not sound before).
pub open spec fn restarted(held: Map<u32, (u8, u8)>, notes: Seq<u8>) -> Set<(u8, u8)> {
    Set::new(|p: (u8, u8)| moved_notes(held, notes).contains(p.0)
        && top_velocity(rescaled(held, notes), p.0) == Some(p.1)
        && top_velocity(held, p.0) != Some(p.1))
}

/// The touched notes that no key sounds after the change.
pub open spec fn silenced(held: Map<u32, (u8, u8)>, notes: Seq<u8>) -> Set<u8> {
    Set::new(|n: u8| moved_notes(held, notes).contains(n) && top_velocity(rescaled(held, notes), n) is None)
}

/// The notes some key sounds.
pub open spec fn sounding_notes(held: Map<u32, (u8, u8)>) -> Set<u8> {
    Set::new(|n: u8| exists|k: u32| #[trigger] held.contains_key(k) && held[k].0 == n && held[k].1 > 0)
}

/// A list of (key, note, velocity) entries that holds exactly the entries of a map.
pub open spec fn lists(e: Seq<(u32, u8, u8)>, m: Map<u32, (u8, u8)>) -> bool {
    &&& forall|i: int| 0 <= i < e.len() ==> #[trigger] m.contains_key(e[i].0) && m[e[i].0] == (e[i].1, e[i].2)
    &&& forall|k: u32| #[trigger] m.contains_key(k) ==> exists|i: int| 0 <= i < e.len() && e[i].0 == k
}

proof fn lemma_top_unique(m: Map<u32, (u8, u8)>, n: u8, v: u8)
    requires
        is_top(m, n, v),
    ensures
        top_velocity(m, n) == Some(v),
{
    let w = choose|w: u8| is_top(m, n, w);
    assert(is_top(m, n, w));
    let kv = choose|k: u32| #[trigger] m.contains_key(k) && m[k] == (n, v);
    let kw = choose|k: u32| #[trigger] m.contains_key(k) && m[k] == (n, w);
    assert(m.contains_key(kv) && m[kv].0 == n && m[kv].1 > 0);
    assert(m.contains_key(kw) && m[kw].0 == n && m[kw].1 > 0);
}

/// The loudest velocity with which a listed entry plays note `n`.
fn top_in(e: &Vec<(u32, u8, u8)>, n: u8, Ghost(m): Ghost<Map<u32, (u8, u8)>>) -> (r: Option<u8>)
    requires
        lists(e@, m),
    ensures
        r == top_velocity(m, n),
        r is Some <==> exists|k: u32| #[trigger] m.contains_key(k) && m[k].0 == n && m[k].1 > 0,
{
    let mut best: Option<u8> = None;
    let mut i: usize = 0;
    while i < e.len()
        invariant
            i <= e@.len(),
            lists(e@, m),
            best is None ==> forall|j: int| 0 <= j < i ==> !(#[trigger] e@[j].1 == n && e@[j].2 > 0),
            best matches Some(v) ==> {
                &&& v > 0
                &&& exists|j: int| 0 <= j < i && e@[j].1 == n && e@[j].2 == v
                &&& forall|j: int| 0 <= j < i && #[trigger] e@[j].1 == n && e@[j].2 > 0 ==> e@[j].2 <= v
            },
        decreases e@.len() - i,
    {
        let (_, note, velocity) = e[i];
        if note == n && velocity > 0 {
            match best {
                Some(v) => {
                    if velocity > v {
                        best = Some(velocity);
                    }
                },
                None => {
                    best = Some(velocity);
                },
            }
        }
        i = i + 1;
    }
    proof {
        match best {
            Some(v) => {
                let j = choose|j: int| 0 <= j < e@.len() && e@[j].1 == n && e@[j].2 == v;
                assert(m.contains_key(e@[j].0));
                assert forall|k: u32| #[trigger] m.contains_key(k) && m[k].0 == n && m[k].1 > 0 implies m[k].1 <= v by {
                    let i2 = choose|i2: int| 0 <= i2 < e@.len() && e@[i2].0 == k;
                    assert(m.contains_key(e@[i2].0));
                    assert(e@[i2].1 == n && e@[i2].2 > 0);
                }
                assert(is_top(m, n, v));
                lemma_top_unique(m, n, v);
            },
            None => {
                if exists|v: u8| is_top(m, n, v) {
                    let v = choose|v: u8| is_top(m, n, v);
                    let k = choose|k: u32| #[trigger] m.contains_key(k) && m[k] == (n, v);
                    let i2 = choose|i2: int| 0 <= i2 < e@.len() && e@[i2].0 == k;
                    assert(m.contains_key(e@[i2].0));
                    assert(e@[i2].1 == n && e@[i2].2 > 0);
                }
                if exists|k: u32| #[trigger] m.contains_key(k) && m[k].0 == n && m[k].1 > 0 {
                    let k = choose|k: u32| #[trigger] m.contains_key(k) && m[k].0 == n && m[k].1 > 0;
                    let i2 = choose|i2: int| 0 <= i2 < e@.len() && e@[i2].0 == k;
                    assert(m.contains_key(e@[i2].0));
                    assert(e@[i2].1 == n && e@[i2].2 > 0);
                }
            },
        }
    }
    best
}

impl MidiKeys {
    /// The (key, note, velocity) entries of the sounding keys.
    fn held_entries(&self) -> (r: Vec<(u32, u8, u8)>)
        ensures
            lists(r@, self.held()),
            forall|i: int, j: int| 0 <= i < j < r@.len() ==> r@[i].0 != r@[j].0,
    {
        broadcast use vstd::std_specs::hash::group_hash_axioms;
        let mut r: Vec<(u32, u8, u8)> = Vec::new();
        let ghost pairs = self.output_values.iter().remaining();
        let ghost m = self.output_values@;
        for entry in it: self.output_values.iter()
            invariant
                it.seq() == pairs,
                m == self.output_values@,
                m == self.held(),
                pairs.no_duplicates(),
                forall|j: int| 0 <= j < pairs.len() ==> m.contains_key(*pairs[j].0) && m[*pairs[j].0] == *pairs[j].1,
                forall|k: u32| #[trigger] m.contains_key(k) ==> pairs.contains((&k, &m[k])),
                r@.len() == it.index(),
                forall|j: int| 0 <= j < it.index() ==> #[trigger] r@[j] == (*pairs[j].0, pairs[j].1.0, pairs[j].1.1),
        {
            let (k, v) = entry;
            r.push((*k, v.0, v.1));
        }
        proof {
            assert forall|i: int| 0 <= i < r@.len() implies #[trigger] m.contains_key(r@[i].0) && m[r@[i].0] == (r@[i].1, r@[i].2) by {
                assert(r@[i] == (*pairs[i].0, pairs[i].1.0, pairs[i].1.1));
            }
            assert forall|k: u32| #[trigger] m.contains_key(k) implies exists|i: int| 0 <= i < r@.len() && r@[i].0 == k by {
                assert(pairs.contains((&k, &m[k])));
                let j = choose|j: int| 0 <= j < pairs.len() && pairs[j] == (&k, &m[k]);
                assert(r@[j] == (*pairs[j].0, pairs[j].1.0, pairs[j].1.1));
            }
            assert forall|i: int, j: int| 0 <= i < j < r@.len() implies r@[i].0 != r@[j].0 by {
                assert(r@[i] == (*pairs[i].0, pairs[i].1.0, pairs[i].1.1));
                assert(r@[j] == (*pairs[j].0, pairs[j].1.0, pairs[j].1.1));
                if r@[i].0 == r@[j].0 {
                    assert(*pairs[i].1 == m[*pairs[i].0]);
                    assert(*pairs[j].1 == m[*pairs[j].0]);
                    assert(pairs[i] == pairs[j]);
                }
            }
        }
        r
    }

    /// The notes the part sounds now.
    pub fn get_notes(&self) -> (r: HashSet<u8>)
        ensures
            r@ == sounding_notes(self.held()),
    {
        broadcast use vstd::std_specs::hash::group_hash_axioms;
        let e = self.held_entries();
        let mut r: HashSet<u8> = HashSet::new();
        let mut i: usize = 0;
        while i < e.len()
            invariant
                i <= e@.len(),
                lists(e@, self.held()),
                r@ == Set::new(|n: u8| exists|j: int| 0 <= j < i && #[trigger] e@[j].1 == n && e@[j].2 > 0),
            decreases e@.len() - i,
        {
            let (_, note, velocity) = e[i];
            if velocity > 0 {
                r.insert(note);
            }
            proof {
                let next = Set::new(|n: u8| exists|j: int| 0 <= j < i + 1 && #[trigger] e@[j].1 == n && e@[j].2 > 0);
                assert forall|n: u8| #[trigger] next.contains(n) implies r@.contains(n) by {
                    let j = choose|j: int| 0 <= j < i + 1 && #[trigger] e@[j].1 == n && e@[j].2 > 0;
                    if j < i {
                        assert(e@[j].1 == n && e@[j].2 > 0);
                    }
                }
                assert forall|n: u8| #[trigger] r@.contains(n) implies next.contains(n) by {
                    if n == note && velocity > 0 {
                        assert(e@[i as int].1 == n && e@[i as int].2 > 0);
                    } else {
                        let j = choose|j: int| 0 <= j < i && #[trigger] e@[j].1 == n && e@[j].2 > 0;
                        assert(e@[j].1 == n && e@[j].2 > 0);
                    }
                }
                assert(r@ =~= next);
            }
            i = i + 1;
        }
        proof {
            let m = self.held();
            assert forall|n: u8| #[trigger] sounding_notes(m).contains(n) implies r@.contains(n) by {
                let k = choose|k: u32| #[trigger] m.contains_key(k) && m[k].0 == n && m[k].1 > 0;
                let j = choose|j: int| 0 <= j < e@.len() && e@[j].0 == k;
                assert(m.contains_key(e@[j].0));
                assert(e@[j].1 == n && e@[j].2 > 0);
            }
            assert forall|n: u8| #[trigger] r@.contains(n) implies sounding_notes(m).contains(n) by {
                let j = choose|j: int| 0 <= j < e@.len() && #[trigger] e@[j].1 == n && e@[j].2 > 0;
                assert(m.contains_key(e@[j].0));
            }
            assert(r@ =~= sounding_notes(m));
        }
        r
    }
}


/// Some entry before position `i` is for key `k`.
pub open spec fn listed(e: Seq<(u32, u8, u8)>, i: int, k: u32) -> bool {
    exists|j: int| 0 <= j < i && e[j].0 == k
}

fn push_unique(v: &mut Vec<u8>, x: u8)
    requires
        old(v)@.no_duplicates(),
    ensures
        final(v)@.no_duplicates(),
        final(v)@.to_set() == old(v)@.to_set().insert(x),
{
    let mut i: usize = 0;
    let mut found = false;
    while i < v.len()
        invariant
            i <= v@.len(),
            v@ == old(v)@,
            !found ==> forall|j: int| 0 <= j < i ==> v@[j] != x,
            found ==> v@.contains(x),
        decreases v@.len() - i,
    {
        if v[i] == x {
            found = true;
        }
        i = i + 1;
    }
    if found {
        proof {
            assert(old(v)@.to_set().contains(x));
            assert(old(v)@.to_set().insert(x) =~= old(v)@.to_set());
        }
        return;
    }
    let ghost before = v@;
    v.push(x);
    proof {
        assert forall|a: int, b: int| 0 <= a < v@.len() && 0 <= b < v@.len() && a != b implies v@[a] != v@[b] by {
            if b == before.len() {
                assert(v@[a] == before[a]);
            } else if a == before.len() {
                assert(v@[b] == before[b]);
            } else {
                assert(v@[a] == before[a] && v@[b] == before[b]);
            }
        }
        assert forall|y: u8| v@.to_set().contains(y) <==> before.to_set().insert(x).contains(y) by {
            if v@.contains(y) && y != x {
                let j = choose|j: int| 0 <= j < v@.len() && v@[j] == y;
                assert(before[j] == y);
            }
            if before.contains(y) {
                let j = choose|j: int| 0 <= j < before.len() && before[j] == y;
                assert(v@[j] == y);
            }
            if y == x {
                assert(v@[before.len() as int] == y);
            }
        }
        assert(v@.to_set() =~= before.to_set().insert(x));
    }
}

impl MidiKeys {
    /// The clock moved on, and the scale may have changed; `notes[k]` is the note key `k`
    /// now plays. Every sounding key takes its new note at the same velocity. The notes this touches are then sent:
    /// first, in some order, each touched note that now sounds at another velocity than
    /// before (or did not sound) starts at its new velocity; then each touched note that no
    /// key sounds any more stops. A touched note that keeps sounding at the same velocity
    /// is left alone, so held chords move without gaps.
    pub fn on_tick(&mut self, notes: &Vec<u8>)
        requires
            old(self).well_formed(),
            forall|k: u32| #[trigger] old(self).held().contains_key(k) ==> k < notes@.len(),
            forall|i: int| 0 <= i < notes@.len() ==> note_fits(#[trigger] notes@[i], old(self).offset()),
        ensures
            final(self).well_formed(),
            final(self).held() == rescaled(old(self).held(), notes@),
            final(self).channel() == old(self).channel(),
            final(self).offset() == old(self).offset(),
            final(self).velocities() == old(self).velocities(),
            final(self).octave() == old(self).octave(),
            final(self).wraps() == old(self).wraps(),
            final(self).stack() == old(self).stack(),
            final(self).last_velocity() == old(self).last_velocity(),
            final(self).mono() == old(self).mono(),
            exists|ons: Seq<(u8, u8)>, offs: Seq<u8>| {
                &&& ons.no_duplicates()
                &&& ons.to_set() == restarted(old(self).held(), notes@)
                &&& offs.no_duplicates()
                &&& offs.to_set() == silenced(old(self).held(), notes@)
                &&& final(self).messages() == old(self).messages()
                    + ons.map_values(|p: (u8, u8)| key_on(old(self).channel(), old(self).offset(), p.0, p.1))
                    + offs.map_values(|n: u8| key_off(old(self).channel(), old(self).offset(), n))
            },
    {
        broadcast use vstd::std_specs::hash::group_hash_axioms;
        let ghost old_m = self.held();
        let ghost new_m = rescaled(old_m, notes@);
        let ghost s0 = *self;
        let ghost ch = self.channel();
        let ghost off = self.offset();
        let e = self.held_entries();
        let mut ne: Vec<(u32, u8, u8)> = Vec::new();
        let mut next: HashMap<u32, (u8, u8)> = HashMap::new();
        let mut i: usize = 0;
        while i < e.len()
            invariant
                i <= e@.len(),
                *self == s0,
                lists(e@, old_m),
                forall|a: int, b: int| 0 <= a < b < e@.len() ==> e@[a].0 != e@[b].0,
                forall|k: u32| #[trigger] old_m.contains_key(k) ==> k < notes@.len(),
                ne@.len() == i,
                forall|j: int| 0 <= j < i ==> #[trigger] ne@[j] == (e@[j].0, notes@[e@[j].0 as int], e@[j].2),
                next@ == Map::new(|k: u32| listed(e@, i as int, k), |k: u32| (notes@[k as int], old_m[k].1)),
            decreases e@.len() - i,
        {
            let (k, _, v) = e[i];
            assert(old_m.contains_key(e@[i as int].0));
            let nn = notes[k as usize];
            ne.push((k, nn, v));
            next.insert(k, (nn, v));
            proof {
                assert(old_m[k] == (e@[i as int].1, e@[i as int].2));
                assert(next@ =~= Map::new(|k2: u32| listed(e@, i + 1, k2), |k2: u32| (notes@[k2 as int], old_m[k2].1))) by {
                    assert forall|k2: u32| #[trigger] listed(e@, i + 1, k2) <==> (listed(e@, i as int, k2) || k2 == k) by {
                        if k2 == k {
                            assert(e@[i as int].0 == k2);
                        }
                        if exists|j: int| 0 <= j < i + 1 && e@[j].0 == k2 {
                            let j = choose|j: int| 0 <= j < i + 1 && e@[j].0 == k2;
                            if j == i {
                                assert(k2 == k);
                            }
                        }
                    }
                }
            }
            i = i + 1;
        }
        proof {
            assert(next@ =~= new_m) by {
                assert forall|k: u32| #[trigger] listed(e@, e@.len() as int, k) <==> old_m.contains_key(k) by {
                    if exists|j: int| 0 <= j < e@.len() && e@[j].0 == k {
                        let j = choose|j: int| 0 <= j < e@.len() && e@[j].0 == k;
                        assert(old_m.contains_key(e@[j].0));
                    }
                }
            }
            assert forall|j: int| 0 <= j < ne@.len() implies #[trigger] new_m.contains_key(ne@[j].0) && new_m[ne@[j].0] == (ne@[j].1, ne@[j].2) by {
                assert(ne@[j] == (e@[j].0, notes@[e@[j].0 as int], e@[j].2));
                assert(old_m.contains_key(e@[j].0));
            }
            assert forall|k: u32| #[trigger] new_m.contains_key(k) implies exists|j: int| 0 <= j < ne@.len() && ne@[j].0 == k by {
                assert(old_m.contains_key(k));
                let j = choose|j: int| 0 <= j < e@.len() && e@[j].0 == k;
                assert(ne@[j] == (e@[j].0, notes@[e@[j].0 as int], e@[j].2));
            }
            assert(lists(ne@, new_m));
        }
        let mut moved: Vec<u8> = Vec::new();
        let mut i: usize = 0;
        while i < e.len()
            invariant
                i <= e@.len(),
                *self == s0,
                lists(e@, old_m),
                forall|k: u32| #[trigger] old_m.contains_key(k) ==> k < notes@.len(),
                moved@.no_duplicates(),
                moved@.to_set() == Set::new(|x: u8| exists|j: int| 0 <= j < i && e@[j].2 > 0
                    && e@[j].1 != notes@[e@[j].0 as int] && (x == e@[j].1 || x == notes@[e@[j].0 as int])),
            decreases e@.len() - i,
        {
            let (k, n, v) = e[i];
            assert(old_m.contains_key(e@[i as int].0));
            let nn = notes[k as usize];
            let ghost before = moved@.to_set();
            if v > 0 && n != nn {
                push_unique(&mut moved, n);
                push_unique(&mut moved, nn);
            }
            proof {
                let target = Set::new(|x: u8| exists|j: int| 0 <= j < i + 1 && e@[j].2 > 0
                    && e@[j].1 != notes@[e@[j].0 as int] && (x == e@[j].1 || x == notes@[e@[j].0 as int]));
                assert forall|x: u8| #[trigger] target.contains(x) implies moved@.to_set().contains(x) by {
                    let j = choose|j: int| 0 <= j < i + 1 && e@[j].2 > 0
                        && e@[j].1 != notes@[e@[j].0 as int] && (x == e@[j].1 || x == notes@[e@[j].0 as int]);
                    if j < i {
                        assert(before.contains(x));
                    }
                }
                assert forall|x: u8| #[trigger] moved@.to_set().contains(x) implies target.contains(x) by {
                    if before.contains(x) {
                        let j = choose|j: int| 0 <= j < i && e@[j].2 > 0
                            && e@[j].1 != notes@[e@[j].0 as int] && (x == e@[j].1 || x == notes@[e@[j].0 as int]);
                        assert(0 <= j < i + 1);
                    } else {
                        assert(e@[i as int].2 > 0 && e@[i as int].1 != notes@[e@[i as int].0 as int]);
                    }
                }
                assert(moved@.to_set() =~= target);
            }
            i = i + 1;
        }
        proof {
            let found = Set::new(|x: u8| exists|j: int| 0 <= j < e@.len() && e@[j].2 > 0
                && e@[j].1 != notes@[e@[j].0 as int] && (x == e@[j].1 || x == notes@[e@[j].0 as int]));
            assert forall|x: u8| #[trigger] found.contains(x) implies moved_notes(old_m, notes@).contains(x) by {
                let j = choose|j: int| 0 <= j < e@.len() && e@[j].2 > 0
                    && e@[j].1 != notes@[e@[j].0 as int] && (x == e@[j].1 || x == notes@[e@[j].0 as int]);
                assert(old_m.contains_key(e@[j].0));
            }
            assert forall|x: u8| #[trigger] moved_notes(old_m, notes@).contains(x) implies found.contains(x) by {
                let k = choose|k: u32| #[trigger] old_m.contains_key(k) && old_m[k].1 > 0
                    && old_m[k].0 != notes@[k as int] && (x == old_m[k].0 || x == notes@[k as int]);
                let j = choose|j: int| 0 <= j < e@.len() && e@[j].0 == k;
                assert(old_m.contains_key(e@[j].0));
            }
            assert(moved@.to_set() =~= moved_notes(old_m, notes@));
            assert forall|x: u8| #[trigger] moved@.contains(x) implies note_fits(x, s0.offset()) by {
                assert(moved@.to_set().contains(x));
                let k = choose|k: u32| #[trigger] old_m.contains_key(k) && old_m[k].1 > 0
                    && old_m[k].0 != notes@[k as int] && (x == old_m[k].0 || x == notes@[k as int]);
                assert(k < notes@.len());
                assert(note_fits(notes@[k as int], s0.offset()));
            }
        }
        let mut ons: Vec<(u8, u8)> = Vec::new();
        let mut offs: Vec<u8> = Vec::new();
        let mut j: usize = 0;
        while j < moved.len()
            invariant
                j <= moved@.len(),
                *self == s0,
                forall|k: u32| #[trigger] old_m.contains_key(k) ==> k < notes@.len(),
                new_m == rescaled(old_m, notes@),
                lists(e@, old_m),
                lists(ne@, new_m),
                forall|x: u8| #[trigger] moved@.contains(x) ==> note_fits(x, s0.offset()),
                forall|a: int| 0 <= a < ons@.len() ==> note_fits(#[trigger] ons@[a].0, s0.offset()),
                forall|a: int| 0 <= a < offs@.len() ==> note_fits(#[trigger] offs@[a], s0.offset()),
                moved@.no_duplicates(),
                moved@.to_set() == moved_notes(old_m, notes@),
                forall|a: int, b: int| 0 <= a < b < ons@.len() ==> ons@[a].0 != ons@[b].0,
                forall|a: int, b: int| 0 <= a < b < offs@.len() ==> offs@[a] != offs@[b],
                ons@.to_set() == Set::new(|p: (u8, u8)| moved@.take(j as int).contains(p.0)
                    && top_velocity(new_m, p.0) == Some(p.1) && top_velocity(old_m, p.0) != Some(p.1)),
                offs@.to_set() == Set::new(|n: u8| moved@.take(j as int).contains(n) && top_velocity(new_m, n) is None),
                forall|a: int| 0 <= a < ons@.len() ==> moved@.take(j as int).contains(#[trigger] ons@[a].0),
                forall|a: int| 0 <= a < offs@.len() ==> moved@.take(j as int).contains(#[trigger] offs@[a]),
            decreases moved@.len() - j,
        {
            let n = moved[j];
            let ov = top_in(&e, n, Ghost(old_m));
            let nv = top_in(&ne, n, Ghost(new_m));
            let differs = match (ov, nv) {
                (Some(a), Some(b)) => a != b,
                (None, None) => false,
                _ => true,
            };
            let ghost ons_before = ons@;
            let ghost offs_before = offs@;
            proof {
                let prev = moved@.take(j as int);
                let cur = moved@.take(j + 1);
                assert(cur == prev.push(n));
                assert(!prev.contains(n)) by {
                    if prev.contains(n) {
                        let a = choose|a: int| 0 <= a < prev.len() && prev[a] == n;
                        assert(moved@[a] == moved@[j as int]);
                    }
                }
                assert forall|x: u8| #[trigger] cur.contains(x) <==> (prev.contains(x) || x == n) by {
                    if cur.contains(x) && x != n {
                        let a = choose|a: int| 0 <= a < cur.len() && cur[a] == x;
                        assert(prev[a] == x);
                    }
                    if prev.contains(x) {
                        let a = choose|a: int| 0 <= a < prev.len() && prev[a] == x;
                        assert(cur[a] == x);
                    }
                    if x == n {
                        assert(cur[j as int] == x);
                    }
                }
            }
            proof {
                if nv is None {
                    assert(moved@.to_set().contains(n));
                    let k = choose|k: u32| #[trigger] old_m.contains_key(k) && old_m[k].1 > 0
                        && old_m[k].0 != notes@[k as int] && (n == old_m[k].0 || n == notes@[k as int]);
                    if n == notes@[k as int] {
                        assert(new_m.contains_key(k) && new_m[k].0 == n && new_m[k].1 > 0);
                    }
                    assert(old_m.contains_key(k) && old_m[k].0 == n && old_m[k].1 > 0);
                    assert(ov is Some);
                }
                assert(moved@.contains(n));
            }
            if differs {
                match nv {
                    Some(v) => {
                        ons.push((n, v));
                    },
                    None => {
                        offs.push(n);
                    },
                }
            }
            proof {
                let prev = moved@.take(j as int);
                let cur = moved@.take(j + 1);
                let on_target = Set::new(|p: (u8, u8)| cur.contains(p.0)
                    && top_velocity(new_m, p.0) == Some(p.1) && top_velocity(old_m, p.0) != Some(p.1));
                let off_target = Set::new(|x: u8| cur.contains(x) && top_velocity(new_m, x) is None);
                assert forall|p: (u8, u8)| #[trigger] on_target.contains(p) implies ons@.to_set().contains(p) by {
                    if p.0 != n {
                        assert(ons_before.to_set().contains(p));
                        let a = choose|a: int| 0 <= a < ons_before.len() && ons_before[a] == p;
                        assert(ons@[a] == p);
                    } else {
                        assert(ons@[ons@.len() - 1] == p);
                    }
                }
                assert forall|p: (u8, u8)| #[trigger] ons@.to_set().contains(p) implies on_target.contains(p) by {
                    let a = choose|a: int| 0 <= a < ons@.len() && ons@[a] == p;
                    if a < ons_before.len() {
                        assert(ons_before[a] == p);
                        assert(ons_before.to_set().contains(p));
                    }
                }
                assert(ons@.to_set() =~= on_target);
                assert forall|x: u8| #[trigger] off_target.contains(x) implies offs@.to_set().contains(x) by {
                    if x != n {
                        assert(offs_before.to_set().contains(x));
                        let a = choose|a: int| 0 <= a < offs_before.len() && offs_before[a] == x;
                        assert(offs@[a] == x);
                    } else {
                        assert(offs@[offs@.len() - 1] == x);
                    }
                }
                assert forall|x: u8| #[trigger] offs@.to_set().contains(x) implies off_target.contains(x) by {
                    let a = choose|a: int| 0 <= a < offs@.len() && offs@[a] == x;
                    if a < offs_before.len() {
                        assert(offs_before[a] == x);
                        assert(offs_before.to_set().contains(x));
                    }
                }
                assert(offs@.to_set() =~= off_target);
                assert forall|a: int| 0 <= a < ons@.len() implies cur.contains(#[trigger] ons@[a].0) by {
                    if a < ons_before.len() {
                        assert(ons_before[a] == ons@[a]);
                        assert(prev.contains(ons_before[a].0));
                    }
                }
                assert forall|a: int| 0 <= a < offs@.len() implies cur.contains(#[trigger] offs@[a]) by {
                    if a < offs_before.len() {
                        assert(offs_before[a] == offs@[a]);
                        assert(prev.contains(offs_before[a]));
                    }
                }
                assert forall|a: int, b: int| 0 <= a < b < ons@.len() implies ons@[a].0 != ons@[b].0 by {
                    if b == ons_before.len() {
                        assert(ons_before[a] == ons@[a]);
                        assert(prev.contains(ons_before[a].0));
                    } else {
                        assert(ons_before[a] == ons@[a] && ons_before[b] == ons@[b]);
                    }
                }
                assert forall|a: int, b: int| 0 <= a < b < offs@.len() implies offs@[a] != offs@[b] by {
                    if b == offs_before.len() {
                        assert(offs_before[a] == offs@[a]);
                        assert(prev.contains(offs_before[a]));
                    } else {
                        assert(offs_before[a] == offs@[a] && offs_before[b] == offs@[b]);
                    }
                }
            }
            j = j + 1;
        }
        proof {
            assert(moved@.take(moved@.len() as int) == moved@);
            let mv = moved_notes(old_m, notes@);
            assert forall|x: u8| moved@.contains(x) <==> mv.contains(x) by {
                assert(moved@.to_set().contains(x) == moved@.contains(x));
            }
            assert(ons@.to_set() =~= restarted(old_m, notes@));
            assert(offs@.to_set() =~= silenced(old_m, notes@));
            assert forall|a: int, b: int| 0 <= a < ons@.len() && 0 <= b < ons@.len() && a != b implies ons@[a] != ons@[b] by {
                if a < b {
                    assert(ons@[a].0 != ons@[b].0);
                } else {
                    assert(ons@[b].0 != ons@[a].0);
                }
            }
            assert forall|a: int, b: int| 0 <= a < offs@.len() && 0 <= b < offs@.len() && a != b implies offs@[a] != offs@[b] by {
                if a < b {
                } else {
                    assert(offs@[b] != offs@[a]);
                }
            }
        }
        let ghost start_msgs = self.outbox@;
        proof {
            assert(ch == s0.channel() && off == s0.offset());
            assert(1 <= ch <= 16) by {
                assert(s0.well_formed());
            }
        }
        let mut a: usize = 0;
        while a < ons.len()
            invariant
                a <= ons@.len(),
                *self == (MidiKeys { outbox: self.outbox, ..s0 }),
                1 <= ch <= 16,
                self.channel() == ch,
                self.offset() == off,
                forall|x: int| 0 <= x < ons@.len() ==> note_fits(#[trigger] ons@[x].0, off),
                self.outbox@ == start_msgs + ons@.take(a as int).map_values(|p: (u8, u8)| key_on(ch, off, p.0, p.1)),
            decreases ons@.len() - a,
        {
            let (n, v) = ons[a];
            let played = self.played(n);
            self.outbox.push(MidiMessage::Three(144 + self.midi_channel - 1, played, v));
            proof {
                assert(ons@.take(a + 1) == ons@.take(a as int).push(ons@[a as int]));
                assert(self.outbox@ =~= start_msgs + ons@.take(a + 1).map_values(|p: (u8, u8)| key_on(ch, off, p.0, p.1)));
            }
            a = a + 1;
        }
        let ghost mid_msgs = self.outbox@;
        let mut b: usize = 0;
        while b < offs.len()
            invariant
                b <= offs@.len(),
                *self == (MidiKeys { outbox: self.outbox, ..s0 }),
                1 <= ch <= 16,
                self.channel() == ch,
                self.offset() == off,
                forall|x: int| 0 <= x < offs@.len() ==> note_fits(#[trigger] offs@[x], off),
                self.outbox@ == mid_msgs + offs@.take(b as int).map_values(|n: u8| key_off(ch, off, n)),
            decreases offs@.len() - b,
        {
            let n = offs[b];
            let played = self.played(n);
            self.outbox.push(MidiMessage::Three(128 + self.midi_channel - 1, played, 0));
            proof {
                assert(offs@.take(b + 1) == offs@.take(b as int).push(offs@[b as int]));
                assert(self.outbox@ =~= mid_msgs + offs@.take(b + 1).map_values(|n: u8| key_off(ch, off, n)));
            }
            b = b + 1;
        }
        self.output_values = next;
        proof {
            assert(ons@.take(ons@.len() as int) == ons@);
            assert(offs@.take(offs@.len() as int) == offs@);
            assert forall|k: u32| #[trigger] self.held().contains_key(k) implies note_fits(self.held()[k].0, self.offset()) by {
                assert(old_m.contains_key(k));
            }
        }
    }
}

} // verus!
