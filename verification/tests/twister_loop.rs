use loop_drop::controllers::twister::{decode_twister_message, TwisterInput, TwisterMessage, TwisterState};
use loop_drop::loop_event::LoopEvent;
use loop_drop::loop_grid::digital_index_for_note;
use loop_drop::midi_time::MidiTime;
use loop_drop::output_value::OutputValue;
use std::collections::HashSet;

fn played(state: &mut TwisterState, id: u32, value: u8, from_loop: bool) {
    let event = LoopEvent { id, value: OutputValue::On(value), pos: state.last_pos };
    state.step(TwisterMessage::Event { event, from_loop });
}

#[test]
fn encoder_turns_are_played_back_as_events() {
    let mut state = TwisterState::new();
    state.step(TwisterMessage::Schedule { pos: MidiTime::from_ticks(96), length: MidiTime::from_ticks(1), reset_automation: false });
    let actions = state.step(TwisterMessage::ControlChange { id: 3, value: 70 });
    assert_eq!(
        actions.events,
        vec![(LoopEvent { id: 3, value: OutputValue::On(70), pos: MidiTime::from_ticks(96) }, false)]
    );
    // encoders beyond the 64 are ignored
    assert!(state.step(TwisterMessage::ControlChange { id: 64, value: 70 }).events.is_empty());

    let actions = state.step(TwisterMessage::Event {
        event: LoopEvent { id: 3, value: OutputValue::On(70), pos: MidiTime::from_ticks(96) },
        from_loop: false,
    });
    assert_eq!(actions.sends, vec![3]);
    assert_eq!(actions.refresh, vec![3]);
    assert_eq!(state.lanes.last_values.get(&3), Some(&70));
}

#[test]
fn a_recorded_stretch_loops_and_guards_turns() {
    let mut state = TwisterState::new();
    state.step(TwisterMessage::Schedule { pos: MidiTime::from_ticks(100), length: MidiTime::from_ticks(1), reset_automation: false });
    state.step(TwisterMessage::Recording { id: 5, recording: true, quantized_length: MidiTime::zero() });
    state.step(TwisterMessage::Schedule { pos: MidiTime::from_ticks(196), length: MidiTime::from_ticks(1), reset_automation: false });
    assert_eq!(state.recording_span(5), Some(MidiTime::from_ticks(96)));
    assert_eq!(state.recording_span(6), None);
    state.step(TwisterMessage::Recording { id: 5, recording: false, quantized_length: MidiTime::from_ticks(96) });
    let lane = state.lanes.loops.get(&5).copied().expect("a loop");
    assert_eq!((lane.offset, lane.length), (MidiTime::from_ticks(100), MidiTime::from_ticks(96)));
    // the loop ends at 196: a turn before 204 is not taken
    assert!(state.step(TwisterMessage::ControlChange { id: 5, value: 1 }).events.is_empty());
    state.step(TwisterMessage::Schedule { pos: MidiTime::from_ticks(205), length: MidiTime::from_ticks(1), reset_automation: false });
    assert_eq!(state.step(TwisterMessage::ControlChange { id: 5, value: 1 }).events.len(), 1);
    // a turn by hand ends the loop; a reset drops every loop
    played(&mut state, 5, 1, false);
    assert!(state.lanes.loops.get(&5).is_none());
    state.step(TwisterMessage::Recording { id: 7, recording: true, quantized_length: MidiTime::zero() });
    state.step(TwisterMessage::Recording { id: 7, recording: false, quantized_length: MidiTime::from_ticks(24) });
    assert!(state.lanes.loops.get(&7).is_some());
    let actions = state.step(TwisterMessage::Schedule { pos: MidiTime::from_ticks(300), length: MidiTime::from_ticks(1), reset_automation: true });
    assert!(actions.refresh_all);
    assert!(state.lanes.loops.is_empty());
}

#[test]
fn freezing_puts_values_aside_and_cued_values_take_over() {
    let mut state = TwisterState::new();
    played(&mut state, 1, 10, false);
    played(&mut state, 2, 20, false);
    // press: freeze, taking effect at the next tick
    state.step(TwisterMessage::FreezeButton(true));
    assert!(state.want_frozen && !state.frozen);
    let actions = state.step(TwisterMessage::Schedule { pos: MidiTime::from_ticks(24), length: MidiTime::from_ticks(1), reset_automation: false });
    assert!(state.frozen && actions.refresh_all);
    // while frozen the values move on
    played(&mut state, 1, 99, false);
    // a second press while frozen cues: turns by hand are only cued
    state.step(TwisterMessage::FreezeButton(true));
    assert!(state.want_cueing);
    state.step(TwisterMessage::Schedule { pos: MidiTime::from_ticks(48), length: MidiTime::from_ticks(1), reset_automation: false });
    assert!(state.cueing);
    let actions = state.step(TwisterMessage::Event {
        event: LoopEvent { id: 2, value: OutputValue::On(64), pos: MidiTime::from_ticks(48) },
        from_loop: false,
    });
    assert!(actions.sends.is_empty());
    assert_eq!(state.lanes.last_values.get(&2), Some(&20));
    // a release does not leave the freeze while values are cued; a third press stops cueing
    state.step(TwisterMessage::FreezeButton(false));
    assert!(state.want_frozen);
    state.step(TwisterMessage::FreezeButton(true));
    assert!(!state.want_cueing);
    // leaving the freeze (as the grid's controls may ask for it)
    state.want_frozen = false;
    let actions = state.step(TwisterMessage::Schedule { pos: MidiTime::from_ticks(72), length: MidiTime::from_ticks(1), reset_automation: false });
    // the values put aside come back, with the cued one over them
    assert_eq!(state.lanes.last_values.get(&1), Some(&10));
    assert_eq!(state.lanes.last_values.get(&2), Some(&64));
    let sends: HashSet<u32> = actions.sends.iter().copied().collect();
    assert_eq!(sends, [1u32, 2].into_iter().collect());
    assert!(state.lanes.cued_values.is_none() && state.frozen_values.is_none());
}

#[test]
fn a_new_bank_is_shown_at_the_next_tick() {
    let mut state = TwisterState::new();
    state.step(TwisterMessage::BankChange(2));
    let actions = state.step(TwisterMessage::Schedule { pos: MidiTime::from_ticks(1), length: MidiTime::from_ticks(1), reset_automation: false });
    assert_eq!(actions.output, vec![(179, 2, 127)]);
    let actions = state.step(TwisterMessage::Schedule { pos: MidiTime::from_ticks(2), length: MidiTime::from_ticks(1), reset_automation: false });
    assert!(actions.output.is_empty());
}

#[test]
fn encoder_controller_messages_are_read() {
    assert_eq!(decode_twister_message(&[176, 12, 90]), Some(TwisterInput::Turn { id: 12, value: 90 }));
    assert_eq!(decode_twister_message(&[177, 12, 127]), Some(TwisterInput::Record { id: 12, pressed: true }));
    assert_eq!(decode_twister_message(&[179, 2, 127]), Some(TwisterInput::Bank(2)));
    assert_eq!(decode_twister_message(&[179, 2, 0]), None);
    assert_eq!(decode_twister_message(&[179, 19, 127]), Some(TwisterInput::Freeze(true)));
    assert_eq!(decode_twister_message(&[179, 28, 0]), Some(TwisterInput::Freeze(false)));
    assert_eq!(decode_twister_message(&[176, 1]), None);
}

#[test]
fn every_light_of_the_feedback_belongs_to_one_key() {
    let mut seen = HashSet::new();
    for note in 0..=127u8 {
        let place = digital_index_for_note(1, note).expect("every note of channel 1 has a light");
        assert!(place < 140);
        assert!(seen.insert(place));
    }
    for note in (61..=68u8).chain(1..=4u8) {
        let place = digital_index_for_note(2, note).expect("a light");
        assert!(place < 140);
        assert!(seen.insert(place));
    }
    assert_eq!(seen.len(), 140);
    assert_eq!(digital_index_for_note(2, 5), None);
    assert_eq!(digital_index_for_note(3, 8), None);
    assert_eq!(digital_index_for_note(2, 61), Some(16));
    assert_eq!(digital_index_for_note(1, 0), Some(128));
    assert_eq!(digital_index_for_note(2, 4), Some(139));
}

#[test]
fn adding_a_recorded_event_again_changes_nothing() {
    let e = LoopEvent { id: 4, value: OutputValue::On(90), pos: MidiTime::from_ticks(8) };
    let mut sorted = vec![LoopEvent { id: 4, value: OutputValue::Off, pos: MidiTime::from_ticks(2) }, e];
    let before = sorted.clone();
    e.insert_into(&mut sorted);
    assert_eq!(sorted, before);

    let mut recorder = loop_drop::loop_recorder::LoopRecorder::new();
    recorder.add(e);
    recorder.add(LoopEvent { id: 4, value: OutputValue::Off, pos: MidiTime::from_ticks(12) });
    let once: Vec<LoopEvent> = recorder.get_range_for(4, MidiTime::zero(), MidiTime::from_ticks(24)).unwrap().to_vec();
    recorder.add(e);
    let twice: Vec<LoopEvent> = recorder.get_range_for(4, MidiTime::zero(), MidiTime::from_ticks(24)).unwrap().to_vec();
    assert_eq!(once, twice);
    assert_eq!(once.len(), 2);
}

#[test]
fn a_loop_plays_back_what_was_recorded_in_it() {
    let mut state = TwisterState::new();
    let tick = |state: &mut TwisterState, ticks: i32| {
        state.step(TwisterMessage::Schedule {
            pos: MidiTime::from_ticks(ticks),
            length: MidiTime::from_ticks(1),
            reset_automation: false,
        })
    };
    tick(&mut state, 0);
    let turn = LoopEvent { id: 9, value: OutputValue::On(50), pos: MidiTime::from_ticks(10) };
    state.step(TwisterMessage::Event { event: turn, from_loop: false });
    state.step(TwisterMessage::Recording { id: 9, recording: true, quantized_length: MidiTime::zero() });
    tick(&mut state, 96);
    state.step(TwisterMessage::Recording { id: 9, recording: false, quantized_length: MidiTime::from_ticks(96) });
    // 106 ticks is 10 ticks into the second turn of the loop
    let actions = tick(&mut state, 106);
    assert_eq!(actions.events, vec![(turn, true)]);
    let actions = tick(&mut state, 107);
    assert!(actions.events.is_empty());
    let actions = tick(&mut state, 202);
    assert_eq!(actions.events, vec![(turn, true)]);
}

#[test]
fn the_modulator_controller_flips_pages_after_cueing() {
    let mut state = TwisterState::new();
    state.flip_pages_after_cue = true;
    let window = |pos: i32| TwisterMessage::Schedule {
        pos: MidiTime::from_ticks(pos),
        length: MidiTime::from_ticks(1),
        reset_automation: false,
    };
    state.step(TwisterMessage::BankChange(3));
    assert_eq!(state.step(window(1)).output, vec![(179, 3, 127)]);
    state.step(TwisterMessage::FreezeButton(true));
    state.step(window(2));
    state.step(TwisterMessage::FreezeButton(true));
    assert!(state.step(window(3)).output.is_empty());
    assert!(state.cueing);
    state.step(TwisterMessage::FreezeButton(true));
    assert_eq!(state.step(window(4)).output, vec![(179, 0, 127), (179, 3, 127)]);
    assert!(!state.cueing && state.frozen);
}
