use loop_drop::chunk::Coords;
use loop_drop::clock_source::{clock_step, starts_phrase, ClockMessage, FromClock, ToClock, DEFAULT_TEMPO};
use loop_drop::lfo::Lfo;
use loop_drop::config::{PerfectQuality, Quality, TriggerCondition};
use loop_drop::loop_event::LoopEvent;
use loop_drop::loop_recorder::LoopRecorder;
use loop_drop::loop_state::{LoopCollection, LoopState, LoopStateChange};
use loop_drop::loop_transform::LoopTransform;
use loop_drop::midi_time::MidiTime;
use loop_drop::output_value::OutputValue;
use loop_drop::text::{decimal_string, text_eq};
use loop_drop::transform_map::TransformMap;
use std::collections::HashSet;

fn ev(id: u32, ticks: i32, value: OutputValue) -> LoopEvent {
    LoopEvent { id, pos: MidiTime::from_ticks(ticks), value }
}

#[test]
fn midi_time_parts() {
    let t = MidiTime::from_sub_ticks(300);
    assert_eq!(t.ticks(), 1);
    assert_eq!(t.sub_ticks(), 44);
    let n = MidiTime::from_sub_ticks(-1);
    assert_eq!(n.ticks(), -1);
    assert_eq!(n.sub_ticks(), 255);
    assert_eq!(n.fractions(), -1);
    assert_eq!(MidiTime::from_beats(2).ticks(), 48);
    assert_eq!(MidiTime::from_ticks(2).fractions(), 512);
    assert_eq!(MidiTime::tick().fractions(), 256);
    assert_eq!(MidiTime::zero().fractions(), 0);
}

#[test]
fn midi_time_measure() {
    // a quarter of a beat is six ticks
    assert_eq!(MidiTime::from_measure(1, 4), MidiTime::from_ticks(6));
    // a third of a beat is eight ticks
    assert_eq!(MidiTime::from_measure(1, 3), MidiTime::from_ticks(8));
    // rounding goes down, also below zero
    assert_eq!(MidiTime::from_measure(1, 7).fractions(), 6144 / 7);
    assert_eq!(MidiTime::from_measure(-1, 7).fractions(), -(6144 / 7) - 1);
}

#[test]
fn midi_time_arithmetic() {
    let a = MidiTime::from_ticks(5);
    let b = MidiTime::from_sub_ticks(128);
    assert_eq!(a.plus(b).fractions(), 5 * 256 + 128);
    assert_eq!(a.minus(b).fractions(), 5 * 256 - 128);
    assert_eq!(MidiTime::from_ticks(3).half().fractions(), 384);
    assert_eq!(MidiTime::from_sub_ticks(-3).half().fractions(), -2);
    assert_eq!(MidiTime::from_sub_ticks(300).floor(), MidiTime::from_ticks(1));
    assert_eq!(MidiTime::from_sub_ticks(-1).floor(), MidiTime::from_ticks(-1));
}

#[test]
fn midi_time_modulo_wraps_into_cycle() {
    let beat = MidiTime::from_ticks(24);
    assert_eq!(MidiTime::from_ticks(50).modulo(beat), MidiTime::from_ticks(2));
    assert_eq!(MidiTime::from_ticks(-1).modulo(beat), MidiTime::from_ticks(23));
    assert_eq!(MidiTime::from_ticks(-24).modulo(beat), MidiTime::zero());
    assert_eq!(MidiTime::from_ticks(30).quantize(beat), MidiTime::from_ticks(24));
    assert_eq!(MidiTime::from_ticks(-5).quantize(beat), MidiTime::from_ticks(-24));
}

#[test]
fn midi_time_comparisons() {
    let a = MidiTime::from_ticks(1);
    let b = MidiTime::from_ticks(2);
    assert!(a.is_before(b));
    assert!(!b.is_before(a));
    assert!(a.is_at_or_before(a));
    assert_eq!(a.later(b), b);
    assert_eq!(b.later(a), b);
    assert!(MidiTime::from_ticks(48).is_whole_beat());
    assert!(!MidiTime::from_ticks(12).is_whole_beat());
    assert!(!MidiTime::from_sub_ticks(24 * 256 + 1).is_whole_beat());
}

#[test]
fn output_value_basics() {
    assert!(OutputValue::On(1).is_on());
    assert!(!OutputValue::Off.is_on());
    assert_eq!(OutputValue::On(99).value(), 99);
    assert_eq!(OutputValue::Off.value(), 0);
    assert_eq!(OutputValue::Off.rank(), 256);
    assert_eq!(OutputValue::On(7).rank(), 7);
}

#[test]
fn loop_event_order_puts_releases_first() {
    let on = ev(1, 10, OutputValue::On(100));
    let off = ev(1, 10, OutputValue::Off);
    assert!(off.precedes(&on));
    assert_eq!(on.cmp(&off), std::cmp::Ordering::Greater);
    assert_eq!(on.cmp(&on), std::cmp::Ordering::Equal);
    let later = ev(0, 11, OutputValue::Off);
    assert_eq!(on.cmp(&later), std::cmp::Ordering::Less);
    // same position and value: by id
    assert!(ev(1, 3, OutputValue::Off).precedes(&ev(2, 3, OutputValue::Off)));
    assert!(on.is_on());
    assert_eq!(on.with_pos(MidiTime::from_ticks(4)).pos, MidiTime::from_ticks(4));
}

#[test]
fn loop_event_insert_keeps_order_and_replaces_equal() {
    let mut v: Vec<LoopEvent> = Vec::new();
    ev(1, 20, OutputValue::On(100)).insert_into(&mut v);
    ev(1, 10, OutputValue::On(100)).insert_into(&mut v);
    ev(1, 10, OutputValue::Off).insert_into(&mut v);
    ev(1, 10, OutputValue::Off).insert_into(&mut v);
    assert_eq!(v.len(), 3);
    assert_eq!(v[0], ev(1, 10, OutputValue::Off));
    assert_eq!(v[1], ev(1, 10, OutputValue::On(100)));
    assert_eq!(v[2], ev(1, 20, OutputValue::On(100)));
}

#[test]
fn loop_event_range_and_at() {
    let v = vec![
        ev(1, 0, OutputValue::On(100)),
        ev(1, 4, OutputValue::Off),
        ev(1, 8, OutputValue::On(90)),
        ev(1, 12, OutputValue::Off),
    ];
    let r = LoopEvent::range(&v, MidiTime::from_ticks(4), MidiTime::from_ticks(12));
    assert_eq!(r.len(), 2);
    assert_eq!(r[0], v[1]);
    assert_eq!(r[1], v[2]);
    let empty = LoopEvent::range(&v, MidiTime::from_ticks(12), MidiTime::from_ticks(4));
    assert_eq!(empty.len(), 0);
    assert_eq!(LoopEvent::at(&v, MidiTime::from_ticks(9)), Some(&v[2]));
    assert_eq!(LoopEvent::at(&v, MidiTime::from_ticks(8)), Some(&v[2]));
    assert_eq!(LoopEvent::at(&v, MidiTime::from_ticks(-1)), None);
}

#[test]
fn loop_transform_composition() {
    let repeat = LoopTransform::Repeat {
        rate: MidiTime::from_ticks(6),
        offset: MidiTime::zero(),
        value: OutputValue::On(100),
    };
    let range = LoopTransform::Range { pos: MidiTime::from_ticks(30), length: MidiTime::from_ticks(12) };
    match range.apply(&repeat) {
        LoopTransform::Repeat { rate, .. } => assert_eq!(rate, MidiTime::from_ticks(12)),
        _ => panic!("range over repeat stays a repeat"),
    }
    let earlier = LoopTransform::Range { pos: MidiTime::from_ticks(48), length: MidiTime::from_ticks(24) };
    assert_eq!(
        range.apply(&earlier),
        LoopTransform::Range { pos: MidiTime::from_ticks(48), length: MidiTime::from_ticks(12) }
    );
    assert_eq!(LoopTransform::Empty.apply(&repeat), repeat);
    let held = LoopTransform::Value(OutputValue::Off);
    assert_eq!(held.apply(&repeat), held);
    assert!(!LoopTransform::Empty.is_active());
    assert!(!held.is_active());
    assert!(LoopTransform::Value(OutputValue::On(1)).is_active());
    assert!(repeat.is_active());
}

#[test]
fn transform_map_insert_get_remove() {
    let mut m = TransformMap::new();
    assert_eq!(m.len(), 0);
    m.insert(5, LoopTransform::Value(OutputValue::On(1)));
    m.insert(2, LoopTransform::Empty);
    m.insert(5, LoopTransform::Value(OutputValue::Off));
    assert_eq!(m.len(), 2);
    assert_eq!(m.get(5), Some(LoopTransform::Value(OutputValue::Off)));
    assert_eq!(m.get(2), Some(LoopTransform::Empty));
    assert_eq!(m.get(3), None);
    let copy = m.clone();
    assert!(copy.same_as(&m));
    m.remove(2);
    assert_eq!(m.get(2), None);
    assert_eq!(m.len(), 1);
    assert!(!copy.same_as(&m));
}

#[test]
fn loop_recorder_queries() {
    let mut rec = LoopRecorder::new();
    rec.add(ev(3, 0, OutputValue::On(100)));
    rec.add(ev(3, 10, OutputValue::Off));
    rec.add(ev(4, 5, OutputValue::On(50)));
    assert!(rec.get_range_for(9, MidiTime::zero(), MidiTime::from_ticks(10)).is_none());
    let r = rec.get_range_for(3, MidiTime::zero(), MidiTime::from_ticks(10)).unwrap();
    assert_eq!(r.len(), 1);
    assert_eq!(r[0], ev(3, 0, OutputValue::On(100)));
    assert_eq!(rec.get_event_at(3, MidiTime::from_ticks(9)), Some(&ev(3, 0, OutputValue::On(100))));
    assert_eq!(rec.get_event_at(3, MidiTime::from_ticks(10)), Some(&ev(3, 10, OutputValue::Off)));
    assert_eq!(rec.get_next_event_at(3, MidiTime::from_ticks(0)), Some(&ev(3, 10, OutputValue::Off)));
    assert_eq!(rec.get_next_event_at(3, MidiTime::from_ticks(10)), None);
    assert_eq!(rec.get_event_at(4, MidiTime::from_ticks(4)), None);
}

fn loop_with(id: u32, value: u8) -> LoopCollection {
    let mut c = LoopCollection::new(MidiTime::from_beats(8));
    c.transforms.insert(id, LoopTransform::Value(OutputValue::On(value)));
    c
}

#[test]
fn loop_state_undo_redo_round_trip() {
    let mut s = LoopState::new(MidiTime::from_beats(8));
    s.set(loop_with(1, 100));
    assert_eq!(s.get().transforms.get(1), Some(LoopTransform::Value(OutputValue::On(100))));
    s.undo();
    assert_eq!(s.get().transforms.get(1), None);
    s.redo();
    assert_eq!(s.get().transforms.get(1), Some(LoopTransform::Value(OutputValue::On(100))));
    assert_eq!(s.next_change(), Some(LoopStateChange::SetLoop));
    assert_eq!(s.next_change(), Some(LoopStateChange::Undo));
    assert_eq!(s.next_change(), Some(LoopStateChange::Redo));
    assert_eq!(s.next_change(), None);
}

#[test]
fn loop_state_same_loop_is_not_recorded() {
    let mut s = LoopState::new(MidiTime::from_beats(8));
    s.set(LoopCollection::new(MidiTime::from_beats(8)));
    assert_eq!(s.next_change(), None);
    // the first loop cannot be undone
    s.undo();
    assert_eq!(s.next_change(), None);
}

#[test]
fn loop_state_frozen_sets_are_dropped_on_unfreeze() {
    let mut s = LoopState::new(MidiTime::from_beats(8));
    s.freeze();
    assert!(s.is_frozen());
    s.set(loop_with(2, 90));
    assert_eq!(s.get().transforms.get(2), Some(LoopTransform::Value(OutputValue::On(90))));
    s.unfreeze();
    assert!(!s.is_frozen());
    assert_eq!(s.get().transforms.get(2), None);
}

#[test]
fn loop_state_search_through_history() {
    let mut s = LoopState::new(MidiTime::from_beats(8));
    s.set(loop_with(1, 100));
    s.set(loop_with(1, 50));
    s.set(loop_with(2, 50));
    let mut selection = HashSet::new();
    selection.insert(1u32);
    // the newest loop has no transform for 1; the one before has 50
    assert_eq!(s.previous_index_for(0, &selection), Some(-1));
    assert!(s.retrieve(-1).is_some());
    assert_eq!(s.retrieve(0).unwrap().transforms.get(2), Some(LoopTransform::Value(OutputValue::On(50))));
    assert!(s.retrieve(-3).is_none());
    assert_eq!(s.next_index_for(0, &selection), None);
}

#[test]
fn coords_round_trip() {
    let id = Coords::id_from(3, 5);
    assert_eq!(id, 29);
    assert_eq!(Coords::from(id), Coords::new(3, 5));
}

#[test]
fn config_conditions_and_qualities() {
    assert!(TriggerCondition::Gt(10).check(11));
    assert!(!TriggerCondition::Gt(10).check(10));
    assert!(TriggerCondition::Lt(10).check(9));
    assert!(!TriggerCondition::Lt(10).check(10));
    assert_eq!(Quality::Minor.shift(), -1);
    assert_eq!(Quality::Major.shift(), 0);
    assert_eq!(PerfectQuality::Augmented.shift(), 1);
    assert_eq!(PerfectQuality::Diminished.shift(), -1);
}

#[test]
fn text_helpers() {
    assert_eq!(decimal_string(0), "0");
    assert_eq!(decimal_string(4096), "4096");
    assert_eq!(decimal_string(u32::MAX), "4294967295");
    assert!(text_eq("abc", "abc"));
    assert!(!text_eq("abc", "abd"));
}

#[test]
fn lfo_speed_selects_cycle() {
    let mut lfo = Lfo::new();
    assert_eq!((lfo.speed, lfo.wave), (50, 64));
    assert_eq!(lfo.cycle_duration(), MidiTime::from_beats(1));
    lfo.speed = 0;
    assert_eq!(lfo.cycle_duration(), MidiTime::from_beats(3));
    lfo.speed = 127;
    assert_eq!(lfo.cycle_duration(), MidiTime::from_measure(1, 8));
    lfo.speed = 50;
    assert_eq!(lfo.cycle_position(MidiTime::from_ticks(27)), MidiTime::from_ticks(3));
}

#[test]
fn clock_steps_follow_internal_and_external_ticks() {
    let start = MidiTime::from_ticks(10);
    let (pos, action) = clock_step(start, false, ClockMessage::InternalTick);
    assert_eq!(pos, MidiTime::from_ticks(11));
    assert_eq!(action.broadcast, Some(FromClock::Schedule { pos: start, length: MidiTime::tick() }));
    assert!(action.send_clock && !action.suppress_internal);
    let (pos, action) = clock_step(start, true, ClockMessage::InternalTick);
    assert_eq!(pos, start);
    assert_eq!(action.broadcast, None);
    let (pos, action) = clock_step(start, true, ClockMessage::ExternalTick);
    assert_eq!(pos, MidiTime::from_ticks(11));
    assert!(action.suppress_internal && action.send_clock);
    // a start rounds to the nearest beat
    assert_eq!(clock_step(start, false, ClockMessage::ExternalPlay).0, MidiTime::zero());
    assert_eq!(clock_step(MidiTime::from_ticks(12), false, ClockMessage::ExternalPlay).0, MidiTime::from_ticks(24));
    assert_eq!(clock_step(MidiTime::from_ticks(35), false, ClockMessage::ExternalPlay).0, MidiTime::from_ticks(24));
    let (pos, action) = clock_step(start, false, ClockMessage::Nudge(MidiTime::from_ticks(-3)));
    assert_eq!(pos, MidiTime::from_ticks(7));
    assert_eq!(action.broadcast, Some(FromClock::Jump));
    let (pos, action) = clock_step(start, false, ClockMessage::Tempo(140));
    assert_eq!(pos, start);
    assert_eq!(action.broadcast, Some(FromClock::Tempo(140)));
    assert!(starts_phrase(MidiTime::from_beats(64)));
    assert!(!starts_phrase(MidiTime::from_beats(65)));
    assert_eq!(DEFAULT_TEMPO, 120);
    assert_eq!(ToClock::SetTempo(90), ToClock::SetTempo(90));
}
