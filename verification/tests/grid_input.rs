use loop_drop::chunk::{Coords, LatchMode, RepeatMode, Shape};
use loop_drop::grid_map::ChunkPlacement;
use loop_drop::loop_event::LoopEvent;
use loop_drop::loop_grid::{decode_grid_message, rate_for_button, GridEvent, LoopGrid};
use loop_drop::loop_state::LoopCollection;
use loop_drop::loop_transform::LoopTransform;
use loop_drop::midi_time::MidiTime;
use loop_drop::output_value::OutputValue;
use std::collections::HashSet;

fn placement(row: u32, repeat_mode: RepeatMode) -> ChunkPlacement {
    ChunkPlacement {
        coords: Coords::new(row, 0),
        shape: Shape::new(1, 4),
        latch_mode: LatchMode::NoLatch,
        repeat_mode,
        no_suppress_held: false,
        straight_timing_local_ids: vec![],
    }
}

fn two_chunk_grid() -> LoopGrid {
    // chunk 0 repeats with the grid (triggers 0 to 3), chunk 1 never repeats (8 to 11)
    let chunks = vec![placement(0, RepeatMode::Global), placement(1, RepeatMode::NoRepeat)];
    LoopGrid::with_chunks(MidiTime::from_beats(1), MidiTime::from_measure(1, 4), &chunks)
}

fn pad(grid: &mut LoopGrid, id: u32, value: u8) {
    grid.grid_input_event(GridEvent::GridInput { id, value, stamp: 0 }, MidiTime::zero(), 0);
}

#[test]
fn rate_buttons_give_the_eight_repeat_rates() {
    assert_eq!(rate_for_button(0), MidiTime::from_beats(2));
    assert_eq!(rate_for_button(1), MidiTime::from_beats(1));
    assert_eq!(rate_for_button(3), MidiTime::from_measure(1, 4));
    assert_eq!(rate_for_button(5), MidiTime::from_measure(1, 6));
    assert_eq!(rate_for_button(7), MidiTime::from_measure(2, 3));
}

#[test]
fn pads_play_their_velocity_and_repeat_where_their_chunk_does() {
    let mut grid = two_chunk_grid();
    assert_eq!(grid.chunk_repeat_modes, vec![RepeatMode::Global, RepeatMode::NoRepeat]);
    pad(&mut grid, 0, 100);
    assert_eq!(grid.currently_held_inputs, vec![0]);
    assert_eq!(grid.input_values.get(&0), Some(&OutputValue::On(100)));
    assert_eq!(grid.override_values.get(&0), Some(&LoopTransform::Value(OutputValue::On(100))));

    grid.grid_input_event(GridEvent::TriggerModeSelect { id: 2 }, MidiTime::zero(), 0);
    pad(&mut grid, 1, 90);
    let repeat = LoopTransform::Repeat {
        rate: MidiTime::from_measure(1, 4),
        offset: MidiTime::zero(),
        value: OutputValue::On(90),
    };
    assert_eq!(grid.override_values.get(&1), Some(&repeat));
    pad(&mut grid, 8, 80);
    assert_eq!(grid.override_values.get(&8), Some(&LoopTransform::Value(OutputValue::On(80))));

    // a release holds nothing; an uncovered pad holds nothing either
    pad(&mut grid, 0, 0);
    assert_eq!(grid.override_values.get(&0), Some(&LoopTransform::Empty));
    assert_eq!(grid.input_values.get(&0), Some(&OutputValue::Off));
    assert_eq!(grid.currently_held_inputs, vec![1, 8]);
    pad(&mut grid, 20, 70);
    assert_eq!(grid.override_values.get(&20), Some(&LoopTransform::Empty));

    // a new rate reaches the held repeat, not the plain value
    grid.grid_input_event(GridEvent::RateButton { id: 2, pressed: true }, MidiTime::zero(), 0);
    assert_eq!(grid.rate, MidiTime::from_measure(1, 2));
    assert!(!grid.repeat_off_beat);
    let rerated = LoopTransform::Repeat {
        rate: MidiTime::from_measure(1, 2),
        offset: MidiTime::zero(),
        value: OutputValue::On(90),
    };
    assert_eq!(grid.override_values.get(&1), Some(&rerated));
    assert_eq!(grid.override_values.get(&8), Some(&LoopTransform::Value(OutputValue::On(80))));

    // with select held the rate plays off the beat
    grid.grid_input_event(GridEvent::SelectButton(true), MidiTime::zero(), 0);
    grid.grid_input_event(GridEvent::RateButton { id: 4, pressed: true }, MidiTime::zero(), 0);
    assert!(grid.repeat_off_beat);
    assert_eq!(grid.rate, MidiTime::from_measure(1, 8));
}

#[test]
fn two_held_pads_select_the_rectangle_between_them() {
    let mut grid = two_chunk_grid();
    grid.grid_input_event(GridEvent::SelectButton(true), MidiTime::zero(), 0);
    pad(&mut grid, 9, 100);
    assert_eq!(grid.selection, [9u32].into_iter().collect::<HashSet<u32>>());
    pad(&mut grid, 26, 100);
    let expected: HashSet<u32> = [9u32, 10, 17, 18, 25, 26].into_iter().collect();
    assert_eq!(grid.selection, expected);
    // selecting plays nothing
    assert!(grid.input_values.is_empty());
    assert!(grid.override_values.is_empty());
    // a second press of a held pad changes nothing
    pad(&mut grid, 26, 100);
    assert_eq!(grid.selection.len(), 6);
}

#[test]
fn the_flatten_button_clears_loops_and_ignores_quick_presses() {
    let mut grid = LoopGrid::new(MidiTime::from_beats(1), MidiTime::from_measure(1, 4));
    let mut playing = LoopCollection::new(MidiTime::from_beats(1));
    playing.transforms.insert(1, LoopTransform::Value(OutputValue::On(100)));
    playing.transforms.insert(5, LoopTransform::Value(OutputValue::On(100)));
    grid.loop_state.set(playing);

    // nothing held: the grid's loops are silenced
    grid.grid_input_event(GridEvent::FlattenButton(true), MidiTime::zero(), 1000);
    assert_eq!(grid.last_flatten_press_ms, 1000);
    assert_eq!(grid.loop_state.get().transforms.get(1), Some(LoopTransform::Value(OutputValue::Off)));
    assert!(!grid.reset_automation);

    // a press within 200 ms only keeps its time
    grid.loop_state.undo();
    grid.grid_input_event(GridEvent::FlattenButton(true), MidiTime::zero(), 1100);
    assert_eq!(grid.last_flatten_press_ms, 1100);
    assert_eq!(grid.loop_state.get().transforms.get(1), Some(LoopTransform::Value(OutputValue::On(100))));

    // a selection: only the selected loops are silenced, and the selection is emptied
    grid.grid_input_event(GridEvent::SelectButton(true), MidiTime::zero(), 0);
    pad(&mut grid, 5, 100);
    grid.grid_input_event(GridEvent::FlattenButton(true), MidiTime::zero(), 2000);
    assert_eq!(grid.loop_state.get().transforms.get(5), Some(LoopTransform::Value(OutputValue::Off)));
    assert_eq!(grid.loop_state.get().transforms.get(1), Some(LoopTransform::Value(OutputValue::On(100))));
    assert!(grid.selection.is_empty());

    // select held and nothing selected: every loop goes and the automation is reset
    grid.grid_input_event(GridEvent::FlattenButton(true), MidiTime::zero(), 3000);
    assert_eq!(grid.loop_state.get().transforms.get(1), Some(LoopTransform::Value(OutputValue::Off)));
    assert!(grid.reset_automation);

    // a release does nothing
    grid.grid_input_event(GridEvent::FlattenButton(false), MidiTime::zero(), 9000);
    assert_eq!(grid.last_flatten_press_ms, 3000);
}

#[test]
fn suppress_and_repeat_hold_the_selection_override() {
    let mut grid = LoopGrid::new(MidiTime::from_beats(1), MidiTime::from_measure(1, 4));
    assert_eq!(grid.selection_override, LoopTransform::Empty);
    grid.grid_input_event(GridEvent::SuppressButton(true), MidiTime::zero(), 0);
    assert_eq!(grid.selection_override, LoopTransform::Value(OutputValue::Off));
    grid.grid_input_event(GridEvent::SuppressButton(false), MidiTime::zero(), 0);
    assert_eq!(grid.selection_override, LoopTransform::Empty);

    grid.last_pos = MidiTime::from_ticks(48);
    grid.grid_input_event(GridEvent::RepeatButton(true), MidiTime::zero(), 0);
    assert_eq!(grid.holding_at, MidiTime::from_ticks(48));
    assert_eq!(
        grid.selection_override,
        LoopTransform::Range { pos: MidiTime::from_ticks(48), length: MidiTime::from_measure(1, 4) }
    );
    // suppressing wins over repeating
    grid.grid_input_event(GridEvent::SuppressButton(true), MidiTime::zero(), 0);
    assert_eq!(grid.selection_override, LoopTransform::Value(OutputValue::Off));
    grid.grid_input_event(GridEvent::SuppressButton(false), MidiTime::zero(), 0);
    grid.grid_input_event(GridEvent::RepeatButton(false), MidiTime::zero(), 0);
    assert_eq!(grid.selection_override, LoopTransform::Empty);
}

#[test]
fn banks_tempo_and_swing_are_kept() {
    let mut grid = LoopGrid::new(MidiTime::from_beats(1), MidiTime::from_measure(1, 4));
    grid.grid_input_event(GridEvent::BankButton { id: 3, pressed: true }, MidiTime::zero(), 0);
    assert_eq!(grid.current_bank, 3);
    grid.grid_input_event(GridEvent::BankButton { id: 1, pressed: false }, MidiTime::zero(), 0);
    assert_eq!(grid.current_bank, 3);
    grid.grid_input_event(GridEvent::SelectButton(true), MidiTime::zero(), 0);
    grid.grid_input_event(GridEvent::BankButton { id: 1, pressed: true }, MidiTime::zero(), 0);
    assert_eq!(grid.current_bank, 3);
    grid.grid_input_event(GridEvent::TempoControl { value: 99 }, MidiTime::zero(), 0);
    grid.grid_input_event(GridEvent::SwingControl { value: 12 }, MidiTime::zero(), 0);
    assert_eq!((grid.tempo_value, grid.swing_value), (99, 12));
    // lights only
    grid.grid_input_event(GridEvent::DelayedRefresh, MidiTime::zero(), 0);
    assert_eq!(grid.current_bank, 3);
}

#[test]
fn grid_messages_are_read_as_inputs() {
    assert_eq!(decode_grid_message(&[0x90, 8, 100], 7), Some(GridEvent::GridInput { id: 0, value: 100, stamp: 7 }));
    assert_eq!(decode_grid_message(&[0x90, 100, 0], 7), Some(GridEvent::GridInput { id: 84, value: 0, stamp: 7 }));
    assert_eq!(decode_grid_message(&[0x80, 1], 0), Some(GridEvent::FlattenButton(false)));
    assert_eq!(decode_grid_message(&[0x90, 7, 127], 0), Some(GridEvent::SelectButton(true)));
    assert_eq!(decode_grid_message(&[0x90, 95, 127], 0), Some(GridEvent::LengthButton { id: 7, pressed: true }));
    assert_eq!(decode_grid_message(&[0x91, 2, 127], 0), Some(GridEvent::BankButton { id: 1, pressed: true }));
    assert_eq!(decode_grid_message(&[0xB1, 1, 127], 0), Some(GridEvent::RateButton { id: 7, pressed: true }));
    assert_eq!(decode_grid_message(&[0xB1, 2, 40], 0), Some(GridEvent::TriggerModeSelect { id: 1 }));
    assert_eq!(decode_grid_message(&[0xB1, 4, 64], 0), Some(GridEvent::TempoControl { value: 64 }));
    assert_eq!(decode_grid_message(&[0xF0, 0x7E, 0xF7], 0), None);
    assert_eq!(decode_grid_message(&[], 0), None);
}

#[test]
fn played_triggers_rank_their_chunks_percussion() {
    let mut grid = two_chunk_grid();
    let events = vec![
        LoopEvent { id: 1, pos: MidiTime::zero(), value: OutputValue::On(100) },
        LoopEvent { id: 1, pos: MidiTime::from_ticks(1), value: OutputValue::Off },
        LoopEvent { id: 9, pos: MidiTime::from_ticks(2), value: OutputValue::On(100) },
        LoopEvent { id: 30, pos: MidiTime::from_ticks(3), value: OutputValue::On(100) },
    ];
    grid.record_triggers(&events);
    grid.record_triggers(&events);
    // the history keeps grid ids; trigger 1 is the chunk's own id 1 as well
    assert_eq!(grid.trigger_rank(1), 2);
    // trigger 9 is id 1 of chunk 1, which played grid id 9, not 1
    assert_eq!(grid.trigger_rank(9), 0);
    assert_eq!(grid.trigger_rank(30), 0);
}

#[test]
fn pad_controller_messages_are_read() {
    let (pads, _) = loop_drop::loop_grid_launchpad::get_grid_map();
    let decode = |m: &[u8]| loop_drop::loop_grid_launchpad::decode_launchpad_message(m, 3, &pads);
    grid_input_of(decode(&[144, 81, 100]), Some((0, 100)));
    grid_input_of(decode(&[128, 18, 0]), Some((63, 0)));
    grid_input_of(decode(&[160, 11, 60]), Some((56, 60)));
    grid_input_of(decode(&[176, 103, 127]), Some((130, 127)));
    assert_eq!(decode(&[144, 9, 100]), None);
    assert_eq!(
        decode(&[176, 70, 127]),
        Some(loop_drop::loop_grid_launchpad::LaunchpadEvent::LengthButton { id: 1, pressed: true })
    );
    assert_eq!(
        decode(&[176, 19, 0]),
        Some(loop_drop::loop_grid_launchpad::LaunchpadEvent::RateButton { id: 7, pressed: false })
    );
    assert_eq!(decode(&[176, 93, 127]), Some(loop_drop::loop_grid_launchpad::LaunchpadEvent::UndoButton(true)));
    assert_eq!(decode(&[176, 98, 127]), Some(loop_drop::loop_grid_launchpad::LaunchpadEvent::ShiftButton(true)));
    assert_eq!(
        decode(&[176, 6, 127]),
        Some(loop_drop::loop_grid_launchpad::LaunchpadEvent::BankButton { id: 1, pressed: true })
    );
    assert_eq!(
        decode(&[176, 4, 127]),
        Some(loop_drop::loop_grid_launchpad::LaunchpadEvent::TriggerModeButton { id: 3, pressed: true })
    );
    assert_eq!(decode(&[176, 90, 0]), Some(loop_drop::loop_grid_launchpad::LaunchpadEvent::SustainButton(false)));
    assert_eq!(decode(&[176, 99, 127]), None);
    assert_eq!(decode(&[240, 0, 32]), None);
}

fn grid_input_of(event: Option<loop_drop::loop_grid_launchpad::LaunchpadEvent>, expected: Option<(u32, u8)>) {
    match (event, expected) {
        (Some(loop_drop::loop_grid_launchpad::LaunchpadEvent::GridInput { id, value, stamp }), Some((i, v))) => {
            assert_eq!((id, value, stamp), (i, v, 3));
        }
        (e, x) => panic!("unexpected {:?} for {:?}", e, x),
    }
}

#[test]
fn percussion_triggers_played_most_often_are_scheduled_first() {
    let mut grid = two_chunk_grid();
    let hit = |id: u32| LoopEvent { id, pos: MidiTime::zero(), value: OutputValue::On(100) };
    // chunk 0 played trigger 2 twice and trigger 1 once
    grid.record_triggers(&vec![hit(2), hit(1), hit(2)]);
    assert_eq!((grid.trigger_rank(2), grid.trigger_rank(1)), (2, 1));
    let events = vec![hit(9), hit(40), hit(1), hit(3), hit(2), hit(8)];
    let percussion = vec![true, false];
    let ordered = grid.schedule_order(&events, &percussion);
    let ids: Vec<u32> = ordered.iter().map(|e| e.id).collect();
    // chunk 0 first, its most played first; then chunk 1 in the order given; the
    // trigger no chunk covers goes by id
    assert_eq!(ids.len(), 6);
    let place = |id: u32| ids.iter().position(|x| *x == id).unwrap();
    assert!(place(2) < place(1) && place(1) < place(9));
    assert!(place(3) < place(9) && place(9) < place(8));
    // without percussion the chunk keeps the order given
    let plain = grid.schedule_order(&vec![hit(1), hit(3), hit(2)], &vec![false, false]);
    assert_eq!(plain.iter().map(|e| e.id).collect::<Vec<u32>>(), vec![1, 3, 2]);
}
