use loop_drop::controllers::twister::{freeze_button, get_control_id, refresh_messages, Control, ControlLanes};
use loop_drop::chunk::{Coords, LatchMode, RepeatMode, Shape};
use loop_drop::controllers::midi_ease_out;
use loop_drop::devices::tr08::TR08;
use loop_drop::config::Config;
use loop_drop::grid_map::{chunk_placements, ChunkPlacement};
use loop_drop::loop_event::LoopEvent;
use loop_drop::loop_grid::{length_for_button, timing_fits, GridEvent, LoopGrid, LoopGridRemoteEvent, TriggerMode};
use loop_drop::loop_state::{LoopCollection, LoopState};
use loop_drop::loop_transform::LoopTransform;
use loop_drop::midi_connection::SharedMidiOutputConnection;
use loop_drop::midi_time::MidiTime;
use loop_drop::output_value::OutputValue;
use std::collections::HashSet;

fn hit(id: u32, ticks: i32, value: OutputValue) -> LoopEvent {
    LoopEvent { id, pos: MidiTime::from_ticks(ticks), value }
}

#[test]
fn releasing_the_loop_button_captures_what_was_played() {
    let mut grid = LoopGrid::new(MidiTime::from_beats(1), MidiTime::from_measure(1, 4));
    // trigger 3 plays inside the loop, trigger 4 was left on before it, trigger 9 never played
    grid.recorder.add(hit(3, 30, OutputValue::On(100)));
    grid.recorder.add(hit(3, 36, OutputValue::Off));
    grid.recorder.add(hit(4, 2, OutputValue::On(90)));
    grid.last_changed_triggers.insert(3, MidiTime::from_ticks(30));
    grid.last_changed_triggers.insert(4, MidiTime::from_ticks(26));
    grid.selection.insert(9);
    grid.last_pos = MidiTime::from_ticks(24);
    grid.grid_input_event(GridEvent::LoopButton(true), MidiTime::zero(), 0);
    assert!(grid.loop_held);
    assert_eq!(grid.loop_from, MidiTime::from_ticks(24));
    grid.last_pos = MidiTime::from_ticks(72);
    grid.grid_input_event(GridEvent::LoopButton(false), MidiTime::from_beats(2), 0);
    assert!(!grid.loop_held);
    assert_eq!(grid.loop_from, MidiTime::from_ticks(24));
    assert_eq!(grid.loop_length, MidiTime::from_beats(2));
    let current = grid.loop_state.get();
    assert_eq!(current.length, MidiTime::from_beats(2));
    assert_eq!(
        current.transforms.get(3),
        Some(LoopTransform::Range { pos: MidiTime::from_ticks(24), length: MidiTime::from_beats(2) })
    );
    assert_eq!(current.transforms.get(4), Some(LoopTransform::Value(OutputValue::On(90))));
    assert_eq!(current.transforms.get(9), Some(LoopTransform::Empty));
    assert_eq!(current.transforms.get(5), None);
    assert!(grid.last_changed_triggers.is_empty());
    assert!(grid.selection.is_empty());
    let snapshot = grid.last_loop_snapshot.as_ref().expect("the loop is kept");
    assert_eq!(snapshot.loop_from, MidiTime::from_ticks(24));
    assert!(snapshot.recording_ids.contains(&3) && snapshot.recording_ids.contains(&9));
    // undo brings back the empty loop and forgets the kept one
    grid.grid_input_event(GridEvent::UndoButton(true), MidiTime::zero(), 0);
    assert!(grid.loop_state.get().transforms.get(3).is_none());
    assert!(grid.last_loop_snapshot.is_none());
    grid.grid_input_event(GridEvent::RedoButton(true), MidiTime::zero(), 0);
    assert!(grid.loop_state.get().transforms.get(3).is_some());
}

#[test]
fn a_quick_loop_press_takes_the_last_length_before_it() {
    let mut grid = LoopGrid::new(MidiTime::from_beats(1), MidiTime::from_measure(1, 4));
    grid.recorder.add(hit(2, 80, OutputValue::On(100)));
    grid.last_changed_triggers.insert(2, MidiTime::from_ticks(80));
    grid.last_pos = MidiTime::from_ticks(96);
    grid.start_loop();
    grid.last_pos = MidiTime::from_ticks(100);
    grid.end_loop(MidiTime::from_beats(4));
    assert_eq!(grid.loop_from, MidiTime::from_ticks(72));
    assert_eq!(grid.loop_length, MidiTime::from_beats(1));
    assert_eq!(
        grid.loop_state.get().transforms.get(2),
        Some(LoopTransform::Range { pos: MidiTime::from_ticks(72), length: MidiTime::from_beats(1) })
    );
}

#[test]
fn nothing_recorded_leaves_the_loop_alone() {
    let mut grid = LoopGrid::new(MidiTime::from_beats(1), MidiTime::from_measure(1, 4));
    grid.last_pos = MidiTime::from_ticks(48);
    grid.start_loop();
    grid.last_pos = MidiTime::from_ticks(96);
    grid.end_loop(MidiTime::from_beats(2));
    assert!(grid.loop_state.get().transforms.get(0).is_none());
    assert_eq!(grid.loop_state.get().length, MidiTime::from_beats(1));
    assert!(grid.last_loop_snapshot.is_some());
}

#[test]
fn grid_buttons_change_modes_lengths_and_selection() {
    let mut grid = LoopGrid::new(MidiTime::from_beats(1), MidiTime::from_measure(1, 4));
    grid.grid_input_event(GridEvent::TriggerModeSelect { id: 2 }, MidiTime::zero(), 0);
    assert_eq!(grid.trigger_mode, TriggerMode::Repeat);
    grid.grid_input_event(GridEvent::PrepareButton(true), MidiTime::zero(), 0);
    assert!(grid.trigger_override_held);
    grid.grid_input_event(GridEvent::LengthButton { id: 12, pressed: true }, MidiTime::zero(), 0);
    assert_eq!(grid.loop_length, MidiTime::from_beats(8));
    grid.selection.insert(5);
    grid.grid_input_event(GridEvent::SelectButton(true), MidiTime::zero(), 0);
    assert!(grid.select_held);
    assert!(grid.selection.is_empty());
    grid.grid_input_event(GridEvent::RedoButton(true), MidiTime::zero(), 0);
    assert_eq!(grid.loop_length, MidiTime::from_beats(16));
    grid.grid_input_event(GridEvent::UndoButton(true), MidiTime::zero(), 0);
    assert_eq!(grid.loop_length, MidiTime::from_beats(8));
    grid.grid_input_event(GridEvent::SwingControl { value: 40 }, MidiTime::zero(), 0);
    assert_eq!(grid.loop_length, MidiTime::from_beats(8));
    assert_eq!(length_for_button(0), MidiTime::from_beats(1));
    assert_eq!(length_for_button(7), MidiTime::from_beats(64));
}

#[test]
fn selection_steps_through_the_loop_history() {
    let mut grid = LoopGrid::new(MidiTime::from_beats(1), MidiTime::from_measure(1, 4));
    let mut first = LoopCollection::new(MidiTime::from_beats(1));
    first.transforms.insert(1, LoopTransform::Value(OutputValue::On(100)));
    grid.loop_state.set(first);
    let mut second = LoopCollection::new(MidiTime::from_beats(1));
    second.transforms.insert(1, LoopTransform::Value(OutputValue::On(60)));
    grid.loop_state.set(second);
    grid.selection.insert(1);
    grid.grid_input_event(GridEvent::UndoButton(true), MidiTime::zero(), 0);
    assert_eq!(grid.selection_override_offset, Some(-1));
}

#[test]
fn chunks_laid_out_on_the_grid() {
    let chunks = vec![
        ChunkPlacement {
            coords: Coords::new(0, 0),
            shape: Shape::new(2, 4),
            latch_mode: LatchMode::NoSuppress,
            repeat_mode: RepeatMode::Global,
            no_suppress_held: false,
            straight_timing_local_ids: vec![2, 99],
        },
        ChunkPlacement {
            coords: Coords::new(1, 2),
            shape: Shape::new(1, 4),
            latch_mode: LatchMode::NoLatch,
            repeat_mode: RepeatMode::OnlyQuant,
            no_suppress_held: false,
            straight_timing_local_ids: vec![],
        },
    ];
    let grid = LoopGrid::with_chunks(MidiTime::from_beats(8), MidiTime::from_measure(1, 4), &chunks);
    assert_eq!(grid.chunk_index_for_id(0), Some(0));
    assert_eq!(grid.mapping.get(&9).map(|m| (m.chunk_index, m.id)), Some((0, 5)));
    // the later chunk takes the cells it shares
    assert_eq!(grid.mapping.get(&11).map(|m| (m.chunk_index, m.id)), Some((1, 1)));
    assert_eq!(grid.chunk_index_for_id(16), None);
    assert!(grid.no_suppress.contains(&3) && grid.no_suppress.contains(&11));
    assert!(!grid.no_suppress.contains(&12));
    assert!(grid.no_suppress_held.contains(&13));
    assert!(!grid.no_suppress_held.contains(&0));
    let straight: HashSet<u32> = grid.straight_timing_ids.iter().copied().collect();
    assert_eq!(straight, [2u32].into_iter().collect());
}

#[test]
fn clock_windows_that_fit() {
    assert!(timing_fits(MidiTime::from_ticks(96), MidiTime::from_ticks(1)));
    assert!(!timing_fits(MidiTime::from_ticks(i32::MAX), MidiTime::from_ticks(1)));
}

#[test]
fn ease_out_past_the_controller_range() {
    assert_eq!(midi_ease_out(127), 127);
    assert_eq!(midi_ease_out(200), 85);
    assert_eq!(midi_ease_out(254), 0);
    assert_eq!(midi_ease_out(255), 0);
}

#[test]
fn history_search_beyond_the_history_finds_nothing() {
    let state = LoopState::new(MidiTime::from_beats(1));
    let mut selection = HashSet::new();
    selection.insert(1u32);
    assert_eq!(state.next_index_for(isize::MAX, &selection), None);
    assert_eq!(state.previous_index_for(isize::MIN, &selection), None);
}

#[test]
fn resent_values_come_once_each() {
    let mut port = SharedMidiOutputConnection::new();
    port.send(&[176, 7, 100]);
    port.send(&[176, 7, 90]);
    port.send(&[144, 60, 0]);
    port.send(&[144, 62, 5]);
    let mut resent = port.resend_messages();
    resent.sort();
    assert_eq!(resent, vec![(144, 62, 5), (176, 7, 90)]);
}

#[test]
fn drum_channel_zero_is_accepted() {
    let drums = TR08::new(0);
    drop(drums);
}

#[test]
fn mixing_controller_encoders() {
    assert_eq!(Control::from_id(0), Control::ChannelVolume(0));
    assert_eq!(Control::from_id(3), Control::ChannelFilter(1));
    assert_eq!(Control::from_id(30), Control::Modulator(14));
    assert_eq!(Control::from_id(20), Control::ChannelReverb(2));
    assert_eq!(Control::from_id(32), Control::DuckRelease);
    assert_eq!(Control::from_id(33), Control::LfoRate);
    assert_eq!(Control::from_id(35), Control::ChannelFilterLfoAmount(1));
    assert_eq!(Control::from_id(62), Control::Swing);
    assert_eq!(Control::from_id(63), Control::LfoSkew);
    assert_eq!(Control::from_id(49), Control::Modulator(1));
    assert_eq!(Control::from_id(64), Control::Unassigned);
    assert_eq!(get_control_id(Control::Swing), Some(62));
    assert_eq!(get_control_id(Control::ChannelVolume(9)), None);
    // press freezes, press again cues, press again back to frozen, release unfreezes
    assert_eq!(freeze_button(true, false, false, false), (true, false));
    assert_eq!(freeze_button(true, true, false, false), (true, true));
    assert_eq!(freeze_button(true, true, true, true), (true, false));
    assert_eq!(freeze_button(false, true, false, true), (true, false));
    assert_eq!(freeze_button(false, true, false, false), (false, false));
    assert_eq!(refresh_messages(5, 70, Some(10), true, true, false), vec![(176, 5, 10), (181, 5, 61)]);
    assert_eq!(refresh_messages(5, 70, None, false, false, true), vec![(176, 5, 70), (181, 5, 13)]);
}

#[test]
fn encoder_automation_lanes() {
    let mut lanes = ControlLanes::new();
    lanes.recording(4, true, MidiTime::from_ticks(10), MidiTime::zero());
    lanes.recording(4, false, MidiTime::from_ticks(58), MidiTime::from_ticks(48));
    let looped = lanes.loops.get(&4).copied().expect("a loop");
    assert_eq!(looped.offset, MidiTime::from_ticks(10));
    assert_eq!(looped.length, MidiTime::from_ticks(48));
    // a turn right after the loop ended is ignored, later ones are taken
    assert!(!lanes.allows_change(4, MidiTime::from_ticks(60)));
    assert!(lanes.allows_change(4, MidiTime::from_ticks(70)));
    // a loop's value is kept and sent; a turn by hand ends the loop
    assert!(lanes.event(4, 90, true, false));
    assert_eq!(lanes.last_values.get(&4), Some(&90));
    assert!(lanes.event(4, 20, false, false));
    assert!(lanes.loops.get(&4).is_none());
    // while cueing a turn is only cued
    lanes.cued_values = Some(std::collections::HashMap::new());
    assert!(!lanes.event(4, 33, false, true));
    assert_eq!(lanes.last_values.get(&4), Some(&20));
    assert_eq!(lanes.cued_values.as_ref().and_then(|c| c.get(&4)), Some(&33));
    // too short a recording ends the loop
    lanes.recording(5, true, MidiTime::from_ticks(0), MidiTime::zero());
    lanes.recording(5, false, MidiTime::from_ticks(10), MidiTime::from_ticks(8));
    assert!(lanes.loops.get(&5).is_none());
}

#[test]
fn the_default_setup_laid_out_on_the_grid() {
    let placements = chunk_placements(&Config::default());
    assert_eq!(placements.len(), 14);
    assert_eq!(placements[9].coords, Coords::new(1, 0));
    assert_eq!(placements[9].repeat_mode, RepeatMode::NoCycle);
    let grid = LoopGrid::with_chunks(MidiTime::from_beats(8), MidiTime::from_measure(1, 4), &placements);
    assert_eq!(grid.chunk_index_for_id(0), Some(10));
    assert_eq!(grid.chunk_index_for_id(8), Some(9));
    assert_eq!(grid.chunk_index_for_id(135), Some(8));
    assert!(grid.no_suppress_held.contains(&(11 * 8)));
}

#[test]
fn other_controllers_work_the_loop() {
    let mut grid = LoopGrid::new(MidiTime::from_beats(2), MidiTime::from_measure(1, 4));
    grid.remote_event(LoopGridRemoteEvent::DoubleButton(true), MidiTime::zero());
    assert_eq!(grid.loop_length, MidiTime::from_beats(4));
    grid.remote_event(LoopGridRemoteEvent::PrepareButton(true), MidiTime::zero());
    assert!(grid.trigger_override_held);
    grid.last_pos = MidiTime::from_ticks(48);
    grid.remote_event(LoopGridRemoteEvent::LoopButton(true), MidiTime::zero());
    assert!(grid.loop_held);
    grid.remote_event(LoopGridRemoteEvent::LoopButton(false), MidiTime::zero());
    assert!(!grid.loop_held);
    assert_eq!(grid.loop_from, MidiTime::from_ticks(-48));
}
