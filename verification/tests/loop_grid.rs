use loop_drop::loop_event::LoopEvent;
use loop_drop::loop_grid::{
    cc_bucket, compact_glyph_pixel, compact_text_pixel, compact_text_start, control_overlay_pixel,
    digital_index_for_note, get_double_loop_length, get_grid_map, get_half_loop_length, is_triplet_rate,
    lfo_wave_overlay_pixel, light_to_hue, light_to_intensity, maybe_update, narrow_digit_pixel, next_power_of_two,
    next_repeat, note_letter_pixel, pitch_class_name, prev_power_of_two, rate_overlay_value, sharp_pixel,
    swing_overlay_value, trigger_mode_button_light, trigger_mode_light, trigger_mode_overlay_pixel,
    trigger_mode_overlay_value, update_ids, wide_digit_pixel, Light, LoopGrid, RepeatPhase, RepeatState,
    TransformTarget, TriggerMode, LoopSnapshot,
};
use loop_drop::loop_state::LoopCollection;
use loop_drop::loop_transform::LoopTransform;
use loop_drop::midi_time::MidiTime;
use loop_drop::output_value::OutputValue;
use std::collections::{HashMap, HashSet};

#[test]
fn trigger_mode_ids_round_trip() {
    for id in 0..4 {
        assert_eq!(TriggerMode::from_id(id).to_id(), id);
    }
    assert_eq!(TriggerMode::from_id(7), TriggerMode::Immediate);
    assert_eq!(TriggerMode::Repeat.override_mode(), TriggerMode::Quantized);
    assert_eq!(TriggerMode::Cycle.override_mode(), TriggerMode::Repeat);
    assert_eq!(TriggerMode::Immediate.override_mode(), TriggerMode::Repeat);
}

#[test]
fn light_palette_and_feedback_colours() {
    assert_eq!(Light::Yellow.value(), 22);
    assert_eq!(Light::Value(9).value(), 9);
    assert_eq!(Light::Off.value(), 0);
    assert_eq!(Light::Value(5).low(), Light::ValueLow(5));
    assert_eq!(Light::Red.low(), Light::Red);
    assert_eq!(Light::Unset.unwrap_or(Light::Lime), Light::Lime);
    assert_eq!(light_to_hue(Light::Purple), 95);
    assert_eq!(light_to_hue(Light::ValueLow(33)), 33);
    assert_eq!(light_to_intensity(Light::GreenDark), 24);
    assert_eq!(light_to_intensity(Light::ValueLow(3)), 48);
    assert_eq!(light_to_intensity(Light::WhiteMed), 96);
    assert_eq!(light_to_intensity(Light::White), 127);
    assert_eq!(light_to_intensity(Light::Unset), 0);
}

#[test]
fn pitch_class_names() {
    assert_eq!(pitch_class_name(0), ('C', false));
    assert_eq!(pitch_class_name(13), ('C', true));
    assert_eq!(pitch_class_name(23), ('B', false));
    assert_eq!(pitch_class_name(6), ('F', true));
}

#[test]
fn digital_feedback_indices_follow_the_key_layout() {
    assert_eq!(digital_index_for_note(1, 8), Some(0));
    assert_eq!(digital_index_for_note(1, 12), Some(8));
    assert_eq!(digital_index_for_note(1, 16), Some(4));
    assert_eq!(digital_index_for_note(1, 28), Some(40));
    assert_eq!(digital_index_for_note(1, 87), Some(127));
    assert_eq!(digital_index_for_note(1, 88), Some(24));
    assert_eq!(digital_index_for_note(1, 100), Some(52));
    assert_eq!(digital_index_for_note(1, 127), Some(95));
    assert_eq!(digital_index_for_note(1, 3), Some(131));
    assert_eq!(digital_index_for_note(2, 61), Some(16));
    assert_eq!(digital_index_for_note(2, 4), Some(139));
    assert_eq!(digital_index_for_note(2, 5), None);
    assert_eq!(digital_index_for_note(3, 8), None);
}

#[test]
fn glyphs_light_their_pixels() {
    // C: full top row, left column, full bottom row
    assert!(note_letter_pixel('C', 0, 2));
    assert!(!note_letter_pixel('C', 1, 2));
    assert!(note_letter_pixel('C', 4, 1));
    assert!(!note_letter_pixel('C', 5, 0));
    assert!(!note_letter_pixel('X', 0, 0));
    // the digit 3 borrows E
    assert_eq!(note_letter_pixel('3', 2, 1), note_letter_pixel('E', 2, 1));
    assert!(wide_digit_pixel(7, 4, 2));
    assert!(!wide_digit_pixel(7, 4, 0));
    assert!(!wide_digit_pixel(10, 0, 0));
    assert!(sharp_pixel(1, 1));
    assert!(!sharp_pixel(2, 1));
    assert!(sharp_pixel(4, 0));
    assert!(narrow_digit_pixel(1, 4));
    assert!(!narrow_digit_pixel(2, 0));
    assert!(compact_glyph_pixel('8', 1, 1) == false);
    assert!(compact_glyph_pixel('T', 0, 0));
    assert!(!compact_glyph_pixel('C', 0, 0));
}

#[test]
fn compact_text_is_centred() {
    assert_eq!(compact_text_start(0), 4);
    assert_eq!(compact_text_start(1), 2);
    assert_eq!(compact_text_start(2), 0);
    assert_eq!(compact_text_start(3), 0);
    // "4" is drawn at columns 2..5
    assert_eq!(compact_text_pixel("4", 0, 2, Light::White), Light::White);
    assert_eq!(compact_text_pixel("4", 0, 3, Light::White), Light::Off);
    assert_eq!(compact_text_pixel("4", 2, 3, Light::White), Light::White);
    assert_eq!(compact_text_pixel("4", 0, 1, Light::White), Light::Off);
    // "2T": the T starts at column 4
    assert_eq!(compact_text_pixel("2T", 0, 5, Light::Yellow), Light::Yellow);
    assert_eq!(compact_text_pixel("2T", 1, 4, Light::Yellow), Light::Off);
    assert_eq!(compact_text_pixel("2T", 1, 3, Light::Yellow), Light::Off);
}

#[test]
fn trigger_mode_display() {
    assert_eq!(trigger_mode_overlay_value(TriggerMode::Cycle), "A");
    assert_eq!(trigger_mode_light(TriggerMode::Quantized), Light::Yellow);
    assert_eq!(trigger_mode_button_light(TriggerMode::Repeat, true), Light::Purple);
    assert_eq!(trigger_mode_button_light(TriggerMode::Repeat, false), Light::ValueLow(95));
    // the T arrow: centre row fully lit from column 1
    assert_eq!(trigger_mode_overlay_pixel(Some("T"), 2, 1), Light::Green);
    assert_eq!(trigger_mode_overlay_pixel(Some("T"), 2, 0), Light::Off);
    assert_eq!(trigger_mode_overlay_pixel(Some("T"), 0, 3), Light::Green);
    assert_eq!(trigger_mode_overlay_pixel(Some("R"), 0, 2), Light::Off);
    assert_eq!(trigger_mode_overlay_pixel(Some("R"), 3, 1), Light::Purple);
    assert_eq!(trigger_mode_overlay_pixel(Some("Z"), 0, 1), Light::Off);
    assert_eq!(trigger_mode_overlay_pixel(None, 0, 1), Light::Off);
}

#[test]
fn lfo_wave_pictures() {
    assert_eq!(lfo_wave_overlay_pixel(Some("TRI"), 0, 2), Light::White);
    assert_eq!(lfo_wave_overlay_pixel(Some("TRI"), 0, 1), Light::Off);
    assert_eq!(lfo_wave_overlay_pixel(Some("HDN"), 0, 0), Light::Purple);
    assert_eq!(lfo_wave_overlay_pixel(Some("DWN"), 4, 4), Light::BlueDark);
    assert_eq!(lfo_wave_overlay_pixel(Some("UP"), 5, 4), Light::Off);
    assert_eq!(lfo_wave_overlay_pixel(Some("SAW"), 0, 0), Light::Off);
}

#[test]
fn control_overlays() {
    assert_eq!(control_overlay_pixel("TRG", Some("Q"), None, 0, 2), Light::Yellow);
    assert_eq!(control_overlay_pixel("RATE", Some("4T"), None, 0, 0), Light::Purple);
    assert_eq!(control_overlay_pixel("RATE", Some("8"), None, 0, 2), Light::Yellow);
    assert_eq!(control_overlay_pixel("LFO_WAVE", None, Some("TRI"), 0, 2), Light::White);
    assert_eq!(control_overlay_pixel("SWING", Some("5"), None, 0, 2), Light::White);
    assert_eq!(control_overlay_pixel("SWING", None, None, 0, 2), Light::Off);
}

#[test]
fn rate_names() {
    assert_eq!(rate_overlay_value(MidiTime::from_measure(2, 1)), "2B");
    assert_eq!(rate_overlay_value(MidiTime::from_measure(1, 4)), "4");
    assert_eq!(rate_overlay_value(MidiTime::from_measure(1, 6)), "4T");
    assert_eq!(rate_overlay_value(MidiTime::from_measure(2, 3)), "1T");
    assert_eq!(rate_overlay_value(MidiTime::from_measure(1, 5)), "RATE");
    assert!(is_triplet_rate(MidiTime::from_measure(1, 3)));
    assert!(!is_triplet_rate(MidiTime::from_measure(1, 2)));
}

#[test]
fn next_repeat_lands_on_the_grid() {
    let beat = MidiTime::from_beats(1);
    let half = MidiTime::from_measure(1, 2);
    assert_eq!(next_repeat(MidiTime::from_ticks(30), beat, MidiTime::zero()), MidiTime::from_ticks(48));
    assert_eq!(next_repeat(MidiTime::from_ticks(48), beat, MidiTime::zero()), MidiTime::from_ticks(48));
    assert_eq!(next_repeat(MidiTime::from_ticks(30), beat, half), MidiTime::from_ticks(36));
    assert_eq!(next_repeat(MidiTime::from_ticks(40), beat, half), MidiTime::from_ticks(60));
}

#[test]
fn powers_of_two() {
    assert_eq!(next_power_of_two(0), 1);
    assert_eq!(next_power_of_two(1), 2);
    assert_eq!(next_power_of_two(5), 8);
    assert_eq!(next_power_of_two(8), 16);
    assert_eq!(prev_power_of_two(0), 0);
    assert_eq!(prev_power_of_two(1), 0);
    assert_eq!(prev_power_of_two(2), 1);
    assert_eq!(prev_power_of_two(5), 4);
    assert_eq!(prev_power_of_two(8), 4);
}

#[test]
fn loop_lengths_halve_and_double() {
    // 4 beats = 16 quarter beats
    let four = MidiTime::from_beats(4);
    assert_eq!(get_double_loop_length(four), MidiTime::from_beats(8));
    assert_eq!(get_half_loop_length(four), MidiTime::from_beats(2));
    // 3 beats = 12 quarters: doubles to 16 quarters, halves to 8
    let three = MidiTime::from_beats(3);
    assert_eq!(get_double_loop_length(three), MidiTime::from_beats(4));
    assert_eq!(get_half_loop_length(three), MidiTime::from_beats(2));
    assert_eq!(get_half_loop_length(MidiTime::from_measure(1, 4)), MidiTime::zero());
}

#[test]
fn cc_buckets() {
    assert_eq!(cc_bucket(0, 4), 0);
    assert_eq!(cc_bucket(127, 4), 3);
    assert_eq!(cc_bucket(64, 4), 2);
    assert_eq!(cc_bucket(10, 0), 0);
}

#[test]
fn maybe_update_reports_on_off_changes_only() {
    let mut values = HashMap::new();
    assert_eq!(maybe_update(&mut values, 3, OutputValue::On(100)), Some(OutputValue::On(100)));
    assert_eq!(maybe_update(&mut values, 3, OutputValue::On(20)), None);
    assert_eq!(values[&3], OutputValue::On(20));
    assert_eq!(maybe_update(&mut values, 3, OutputValue::Off), Some(OutputValue::Off));
}

#[test]
fn grid_map_covers_both_blocks() {
    let (midi_to_id, id_to_midi) = get_grid_map();
    assert_eq!(id_to_midi.len(), 112);
    assert_eq!(id_to_midi[&0], 8);
    assert_eq!(id_to_midi[&79], 87);
    assert_eq!(id_to_midi[&80], 96);
    assert_eq!(id_to_midi[&111], 127);
    assert_eq!(midi_to_id[&96], 80);
}

#[test]
fn update_ids_reports_changes() {
    let a: HashSet<u32> = [1, 2, 3].iter().cloned().collect();
    let mut b: HashSet<u32> = [3, 4].iter().cloned().collect();
    let (mut added, removed) = update_ids(&a, &mut b);
    added.sort();
    assert_eq!(added, vec![1, 2]);
    assert_eq!(removed, vec![4]);
    assert_eq!(b, a);
}

#[test]
fn swing_values_are_shown_in_percent_of_fifty() {
    assert_eq!(swing_overlay_value(0), "0");
    assert_eq!(swing_overlay_value(127), "50");
    assert_eq!(swing_overlay_value(64), "25");
}

fn event(id: u32, value: OutputValue, ticks: i32) -> LoopEvent {
    LoopEvent { value, pos: MidiTime::from_ticks(ticks), id }
}

#[test]
fn grid_records_and_plays_back_a_range() {
    let mut grid = LoopGrid::new(MidiTime::from_beats(1), MidiTime::from_measure(1, 4));
    assert_eq!(grid.event(event(5, OutputValue::On(100), 0)), Some(OutputValue::On(100)));
    assert_eq!(grid.event(event(5, OutputValue::On(90), 2)), None);
    assert_eq!(grid.event(event(5, OutputValue::Off, 12)), Some(OutputValue::Off));
    // loop the first beat
    let captured = grid.capture_transform(5, MidiTime::zero(), MidiTime::from_beats(1));
    assert_eq!(captured, LoopTransform::Range { pos: MidiTime::zero(), length: MidiTime::from_beats(1) });
    // nothing recorded for trigger 6
    assert_eq!(grid.capture_transform(6, MidiTime::zero(), MidiTime::from_beats(1)), LoopTransform::Empty);
    // after the last event, only a value is left
    assert_eq!(
        grid.capture_transform(5, MidiTime::from_ticks(24), MidiTime::from_beats(1)),
        LoopTransform::Value(OutputValue::Off)
    );
    grid.out_transforms.insert(5, captured);
    // one beat later the loop is at tick 6: the release at 12 is 6 ticks away
    assert_eq!(grid.get_value(5, MidiTime::from_ticks(30), None), None);
    // at tick 12 of the second beat the release plays
    assert_eq!(grid.get_value(5, MidiTime::from_ticks(36), None), Some(OutputValue::Off));
    // the same range as before sends nothing
    assert_eq!(grid.get_value(5, MidiTime::from_ticks(36), Some(captured)), None);
    // a trigger with no transform is released
    assert_eq!(grid.get_value(9, MidiTime::from_ticks(36), None), Some(OutputValue::Off));
}

#[test]
fn grid_held_values_and_repeats() {
    let mut grid = LoopGrid::new(MidiTime::from_beats(1), MidiTime::from_measure(1, 4));
    grid.out_transforms.insert(1, LoopTransform::Value(OutputValue::On(80)));
    assert_eq!(grid.get_value(1, MidiTime::zero(), None), Some(OutputValue::On(80)));
    assert_eq!(grid.get_value(1, MidiTime::zero(), Some(LoopTransform::Value(OutputValue::On(20)))), None);
    assert_eq!(
        grid.get_value(1, MidiTime::zero(), Some(LoopTransform::Value(OutputValue::Off))),
        Some(OutputValue::On(80))
    );
    let repeat = LoopTransform::Repeat { rate: MidiTime::from_beats(1), offset: MidiTime::zero(), value: OutputValue::On(1) };
    grid.out_transforms.insert(2, repeat);
    assert_eq!(grid.get_value(2, MidiTime::zero(), None), Some(OutputValue::Off));
    assert_eq!(grid.get_value(2, MidiTime::zero(), Some(repeat)), None);
}

#[test]
fn grid_transform_layers_overrides_and_repeats() {
    let mut grid = LoopGrid::new(MidiTime::from_beats(1), MidiTime::from_measure(1, 4));
    let mut collection = LoopCollection::new(MidiTime::from_beats(1));
    collection.transforms.insert(4, LoopTransform::Value(OutputValue::On(50)));
    assert_eq!(grid.get_transform(4, &collection, None), LoopTransform::Value(OutputValue::On(50)));
    grid.override_values.insert(4, LoopTransform::Value(OutputValue::Off));
    assert_eq!(grid.get_transform(4, &collection, None), LoopTransform::Value(OutputValue::Off));
    grid.override_values.insert(4, LoopTransform::Empty);
    grid.sustained_values.insert(4, LoopTransform::Value(OutputValue::On(7)));
    assert_eq!(grid.get_transform(4, &collection, None), LoopTransform::Value(OutputValue::On(7)));
    // a selection override applies to everything active when nothing is selected
    grid.selection_override = LoopTransform::Value(OutputValue::On(99));
    assert_eq!(grid.get_transform(4, &collection, None), LoopTransform::Value(OutputValue::On(99)));
    grid.no_suppress.insert(4);
    assert_eq!(grid.get_transform(4, &collection, None), LoopTransform::Value(OutputValue::On(7)));
    // a pending quantized press silences the trigger
    grid.repeat_states.insert(
        4,
        RepeatState { phase: RepeatPhase::QuantizePending, transform: LoopTransform::Empty, to: MidiTime::zero() },
    );
    assert_eq!(grid.get_transform(4, &collection, None), LoopTransform::Empty);
    grid.handle_repeat_trigger(4, OutputValue::On(1));
    assert_eq!(grid.repeat_states[&4].phase, RepeatPhase::QuantizePending);
    grid.repeat_states.insert(
        4,
        RepeatState { phase: RepeatPhase::Pending, transform: LoopTransform::Value(OutputValue::On(3)), to: MidiTime::zero() },
    );
    grid.handle_repeat_trigger(4, OutputValue::On(1));
    assert_eq!(grid.repeat_states[&4].phase, RepeatPhase::Current);
    assert_eq!(grid.get_transform(4, &collection, None), LoopTransform::Value(OutputValue::On(3)));
    grid.handle_repeat_trigger(4, OutputValue::Off);
    assert_eq!(grid.repeat_states[&4].phase, RepeatPhase::Triggered);
}

#[test]
fn flatten_and_clear_set_new_loops() {
    let mut grid = LoopGrid::new(MidiTime::from_beats(1), MidiTime::from_measure(1, 4));
    assert!(!grid.should_flatten());
    grid.override_values.insert(3, LoopTransform::Value(OutputValue::On(10)));
    assert!(grid.should_flatten());
    grid.out_transforms.insert(3, LoopTransform::Value(OutputValue::On(10)));
    grid.out_transforms.insert(4, LoopTransform::Range { pos: MidiTime::zero(), length: MidiTime::from_beats(1) });
    grid.flatten();
    let current = grid.loop_state.get();
    assert_eq!(current.transforms.get(3), Some(LoopTransform::Value(OutputValue::On(10))));
    // nothing recorded in the range: the range is dropped
    assert_eq!(current.transforms.get(4), Some(LoopTransform::Empty));
    assert_eq!(current.transforms.get(0), Some(LoopTransform::Empty));
    grid.no_suppress.insert(3);
    grid.clear_loops(TransformTarget::All, false);
    let current = grid.loop_state.get();
    assert_eq!(current.transforms.get(3), Some(LoopTransform::Value(OutputValue::On(10))));
    assert_eq!(current.transforms.get(5), Some(LoopTransform::Value(OutputValue::Off)));
    assert_eq!(current.transforms.get(200), None);
    grid.clear_loops(TransformTarget::All, true);
    assert_eq!(grid.loop_state.get().transforms.get(3), Some(LoopTransform::Value(OutputValue::Off)));
}

#[test]
fn freezing_sustains_overrides_and_release_keeps_selected_changes() {
    let mut grid = LoopGrid::new(MidiTime::from_beats(1), MidiTime::from_measure(1, 4));
    grid.override_values.insert(2, LoopTransform::Value(OutputValue::On(60)));
    grid.override_values.insert(3, LoopTransform::Empty);
    grid.freeze_button(true);
    assert!(grid.loop_state.is_frozen());
    assert_eq!(grid.sustained_values.get(&2), Some(&LoopTransform::Value(OutputValue::On(60))));
    assert_eq!(grid.sustained_values.get(&3), None);
    // a loop set while frozen
    let mut frozen = LoopCollection::new(MidiTime::from_beats(1));
    frozen.transforms.insert(2, LoopTransform::Value(OutputValue::On(60)));
    frozen.transforms.insert(7, LoopTransform::Value(OutputValue::On(70)));
    grid.loop_state.set(frozen);
    grid.select(7);
    grid.freeze_button(false);
    assert!(!grid.loop_state.is_frozen());
    assert!(grid.sustained_values.is_empty());
    let current = grid.loop_state.get();
    // the selected trigger's frozen change is kept, the other is dropped
    assert_eq!(current.transforms.get(7), Some(LoopTransform::Value(OutputValue::On(70))));
    assert_eq!(current.transforms.get(2), None);
}

#[test]
fn loop_length_buttons() {
    let mut grid = LoopGrid::new(MidiTime::from_beats(16), MidiTime::from_measure(1, 4));
    grid.double_loop_length();
    assert_eq!(grid.loop_length, MidiTime::from_beats(32));
    grid.double_loop_length();
    assert_eq!(grid.loop_length, MidiTime::from_beats(32));
    let mut grid = LoopGrid::new(MidiTime::from_measure(1, 2), MidiTime::from_measure(1, 4));
    grid.halve_loop_length();
    assert_eq!(grid.loop_length, MidiTime::from_measure(1, 4));
    grid.halve_loop_length();
    assert_eq!(grid.loop_length, MidiTime::from_measure(1, 4));
}

#[test]
fn override_mode_follows_the_held_button() {
    let mut grid = LoopGrid::new(MidiTime::from_beats(1), MidiTime::from_measure(1, 4));
    grid.trigger_mode = TriggerMode::Repeat;
    assert_eq!(grid.effective_trigger_mode(), TriggerMode::Repeat);
    assert!(grid.set_trigger_override_held(true));
    assert_eq!(grid.effective_trigger_mode(), TriggerMode::Quantized);
    assert!(!grid.set_trigger_override_held(true));
    grid.select(1);
    grid.unselect(1);
    assert!(grid.selection.is_empty());
}

fn at_ticks(id: u32, ticks: i32, value: OutputValue) -> LoopEvent {
    LoopEvent { id, pos: MidiTime::from_ticks(ticks), value }
}

#[test]
fn loop_plays_recorded_range_and_repeats() {
    let mut grid = LoopGrid::new(MidiTime::from_beats(1), MidiTime::from_measure(1, 4));
    grid.recorder.add(at_ticks(5, 0, OutputValue::On(100)));
    grid.recorder.add(at_ticks(5, 12, OutputValue::Off));
    grid.out_transforms.insert(5, LoopTransform::Range { pos: MidiTime::zero(), length: MidiTime::from_beats(1) });
    grid.out_transforms.insert(
        6,
        LoopTransform::Repeat { rate: MidiTime::from_ticks(6), offset: MidiTime::zero(), value: OutputValue::On(90) },
    );
    // the second pass of the loop replays the press at its start
    grid.last_pos = MidiTime::from_ticks(24);
    grid.last_length = MidiTime::tick();
    assert_eq!(grid.get_events(), vec![at_ticks(5, 24, OutputValue::On(100)), at_ticks(6, 24, OutputValue::On(90))]);
    // half way through, the release comes back
    grid.last_pos = MidiTime::from_ticks(36);
    assert_eq!(grid.get_events(), vec![at_ticks(5, 36, OutputValue::Off), at_ticks(6, 36, OutputValue::On(90))]);
    // a trigger with straight timing follows the unswung clock
    grid.straight_timing_ids.insert(6);
    grid.last_raw_pos = MidiTime::from_ticks(25);
    grid.last_raw_length = MidiTime::from_ticks(6);
    grid.last_pos = MidiTime::from_ticks(40);
    assert_eq!(grid.get_events(), vec![at_ticks(6, 27, OutputValue::Off), at_ticks(6, 30, OutputValue::On(90))]);
    assert_eq!(grid.pos_for_id(6), MidiTime::from_ticks(25));
    assert_eq!(grid.length_for_id(5), MidiTime::tick());
    // an empty window plays nothing
    grid.last_raw_length = MidiTime::zero();
    grid.last_length = MidiTime::zero();
    assert!(grid.get_events().is_empty());
}

#[test]
fn loop_start_value_is_sent_when_the_window_crosses_the_range_start() {
    let mut grid = LoopGrid::new(MidiTime::from_beats(1), MidiTime::from_measure(1, 4));
    grid.recorder.add(at_ticks(2, 0, OutputValue::On(70)));
    grid.out_transforms.insert(2, LoopTransform::Range { pos: MidiTime::zero(), length: MidiTime::from_beats(1) });
    grid.last_pos = MidiTime::from_ticks(48);
    grid.last_length = MidiTime::tick();
    // the press at the start is both the value in effect and a recorded event
    assert_eq!(grid.get_events(), vec![at_ticks(2, 48, OutputValue::On(70))]);
}

#[test]
fn reloop_takes_the_last_loop_again_with_another_length() {
    let mut grid = LoopGrid::new(MidiTime::from_beats(1), MidiTime::from_measure(1, 4));
    grid.recorder.add(at_ticks(5, 0, OutputValue::On(100)));
    grid.recorder.add(at_ticks(5, 12, OutputValue::Off));
    // without a finished loop nothing happens
    grid.reloop(MidiTime::from_ticks(12));
    assert!(grid.loop_state.get().transforms.get(5).is_none());
    let mut first = LoopCollection::new(MidiTime::from_beats(1));
    first.transforms.insert(5, LoopTransform::Range { pos: MidiTime::zero(), length: MidiTime::from_beats(1) });
    grid.loop_state.set(first);
    let mut last_changed = HashMap::new();
    last_changed.insert(7u32, MidiTime::from_ticks(20));
    last_changed.insert(8u32, MidiTime::from_ticks(4));
    let mut recording_ids = HashSet::new();
    recording_ids.insert(5u32);
    grid.last_loop_snapshot = Some(LoopSnapshot {
        loop_from: MidiTime::zero(),
        loop_length: MidiTime::from_beats(1),
        last_changed_triggers: last_changed,
        recording_ids,
    });
    grid.loop_from = MidiTime::zero();
    grid.reloop(MidiTime::from_ticks(12));
    let current = grid.loop_state.get();
    assert_eq!(
        current.transforms.get(5),
        Some(LoopTransform::Range { pos: MidiTime::from_ticks(12), length: MidiTime::from_ticks(12) })
    );
    assert_eq!(current.transforms.get(7), Some(LoopTransform::Empty));
    assert_eq!(current.transforms.get(8), None);
    assert!(grid.last_loop_snapshot.is_some());
}

#[test]
fn recorder_reports_events_in_range() {
    let mut grid = LoopGrid::new(MidiTime::from_beats(1), MidiTime::from_measure(1, 4));
    grid.recorder.add(at_ticks(1, 10, OutputValue::On(1)));
    assert!(grid.recorder.has_events(1, MidiTime::from_ticks(10), MidiTime::from_ticks(11)));
    assert!(!grid.recorder.has_events(1, MidiTime::from_ticks(11), MidiTime::from_ticks(30)));
    assert!(!grid.recorder.has_events(2, MidiTime::zero(), MidiTime::from_ticks(30)));
}

#[test]
fn trigger_history_ranks_recent_triggers() {
    let mut grid = LoopGrid::new(MidiTime::from_beats(1), MidiTime::from_measure(1, 4));
    let history = &mut grid.last_triggered;
    history.record(0, 5);
    history.record(0, 5);
    history.record(0, 6);
    history.record(1, 5);
    assert_eq!(history.rank(0, 5), 2);
    assert_eq!(history.rank(0, 6), 1);
    assert_eq!(history.rank(1, 5), 1);
    assert_eq!(history.rank(2, 5), 0);
    // only the last eight triggers count
    for _ in 0..7 {
        history.record(0, 9);
    }
    assert_eq!(history.rank(0, 5), 0);
    assert_eq!(history.rank(0, 6), 1);
    assert_eq!(history.rank(0, 9), 7);
}

#[test]
fn repeats_move_on_at_the_end_of_their_step() {
    let mut grid = LoopGrid::new(MidiTime::from_beats(1), MidiTime::from_ticks(6));
    let repeat = LoopTransform::Repeat { rate: MidiTime::from_ticks(6), offset: MidiTime::zero(), value: OutputValue::On(100) };
    let value = LoopTransform::Value(OutputValue::On(100));
    let state = |phase, transform, to: i32| RepeatState { phase, transform, to: MidiTime::from_ticks(to) };
    grid.repeat_states.insert(1, state(RepeatPhase::Current, repeat, 12));
    grid.override_values.insert(1, repeat);
    grid.repeat_states.insert(2, state(RepeatPhase::Pending, value, 6));
    grid.repeat_states.insert(3, state(RepeatPhase::QuantizeCurrent, value, 6));
    grid.repeat_states.insert(4, state(RepeatPhase::Current, repeat, 6));
    grid.currently_held_inputs.push(4);
    grid.repeat_states.insert(5, state(RepeatPhase::Current, LoopTransform::Empty, 6));
    grid.repeat_states.insert(6, state(RepeatPhase::Idle, repeat, 6));
    grid.repeat_states.insert(7, state(RepeatPhase::Current, repeat, 100));
    grid.last_pos = MidiTime::from_ticks(12);
    let mut refresh = grid.advance_repeats();
    refresh.sort();
    assert_eq!(refresh, vec![2, 3, 5]);
    assert_eq!(grid.repeat_states[&1], state(RepeatPhase::Current, repeat, 18));
    let extended = RepeatState {
        phase: RepeatPhase::QuantizeCurrent,
        transform: value,
        to: MidiTime::from_ticks(12).minus(MidiTime::from_sub_ticks(1)),
    };
    assert_eq!(grid.repeat_states[&2], extended);
    assert_eq!(grid.repeat_states[&3].phase, RepeatPhase::Idle);
    assert_eq!(grid.repeat_states[&4].phase, RepeatPhase::Idle);
    assert_eq!(grid.repeat_states[&5].phase, RepeatPhase::Idle);
    assert_eq!(grid.repeat_states[&6], state(RepeatPhase::Idle, repeat, 6));
    assert_eq!(grid.repeat_states[&7], state(RepeatPhase::Current, repeat, 100));
}
