use loop_drop::chunk::TriggerModeChange;
use loop_drop::devices::k_board::{KBoard, KBoardMessage};
use loop_drop::devices::midi_keys::{scale_position, MidiKeys};
use std::collections::HashSet;
use loop_drop::devices::volca_keys::VolcaKeys;
use loop_drop::devices::vt4::{robot_state_request, VT4Command, VT4SysExMessage, VT4};
use loop_drop::devices::MidiMessage;
use loop_drop::output_value::OutputValue;

fn scale_from(base: u8) -> Vec<u8> {
    (0..16u8).map(|i| base + i).collect()
}

#[test]
fn keys_play_the_scale_notes() {
    let mut keys = MidiKeys::new(1, 0, None, false, false, 0);
    let notes = scale_from(60);
    keys.trigger(0, OutputValue::On(100), &notes);
    keys.trigger(1, OutputValue::On(90), &notes);
    // a key already sounding is not restarted
    keys.trigger(0, OutputValue::On(80), &notes);
    keys.trigger(0, OutputValue::Off, &notes);
    assert_eq!(
        keys.take_messages(),
        vec![MidiMessage::Three(144, 60, 100), MidiMessage::Three(144, 61, 90), MidiMessage::Three(128, 60, 0)]
    );
    let sounding = keys.get_notes();
    assert_eq!(sounding.len(), 1);
    assert!(sounding.contains(&61));
    // the scale moves up two steps: the held key follows
    keys.on_tick(&scale_from(62));
    assert_eq!(keys.take_messages(), vec![MidiMessage::Three(144, 63, 90), MidiMessage::Three(128, 61, 0)]);
    // nothing changes: nothing is sent
    keys.on_tick(&scale_from(62));
    assert!(keys.take_messages().is_empty());
}

#[test]
fn keys_keep_notes_that_stay_in_a_chord() {
    let mut keys = MidiKeys::new(1, 0, None, false, false, 0);
    let notes = scale_from(60);
    keys.trigger(0, OutputValue::On(100), &notes);
    keys.trigger(2, OutputValue::On(100), &notes);
    keys.take_messages();
    keys.on_tick(&scale_from(62));
    // 62 keeps sounding (now played by key 0); 64 starts, 60 stops
    assert_eq!(keys.take_messages(), vec![MidiMessage::Three(144, 64, 100), MidiMessage::Three(128, 60, 0)]);
}

#[test]
fn mono_keys_bring_back_the_key_below() {
    let mut keys = MidiKeys::new(1, 0, None, false, true, 0);
    let notes = scale_from(60);
    keys.trigger(0, OutputValue::On(100), &notes);
    keys.trigger(1, OutputValue::On(90), &notes);
    keys.trigger(1, OutputValue::Off, &notes);
    assert_eq!(
        keys.take_messages(),
        vec![
            MidiMessage::Three(144, 60, 100),
            MidiMessage::Three(144, 61, 90),
            MidiMessage::Three(128, 60, 0),
            MidiMessage::Three(144, 60, 90),
            MidiMessage::Three(128, 61, 0),
        ]
    );
}

#[test]
fn keys_shift_and_clamp_by_offset() {
    let mut keys = MidiKeys::new(2, 0, Some(vec![1, 2, 3]), false, false, -12);
    let mut notes = scale_from(60);
    notes[3] = 5;
    keys.trigger(0, OutputValue::On(127), &notes);
    keys.trigger(3, OutputValue::On(0), &notes);
    assert_eq!(keys.take_messages(), vec![MidiMessage::Three(145, 48, 3), MidiMessage::Three(145, 0, 1)]);
    assert_eq!(keys.octave_offset(), 0);
    assert!(!keys.offset_wrap());
}

#[test]
fn scale_positions_invert_chords_that_run_off_the_row() {
    assert_eq!(scale_position(3, 0, 0, false), 3);
    assert_eq!(scale_position(7, 0, 2, true), 2);
    assert_eq!(scale_position(7, 0, 2, false), 9);
    assert_eq!(scale_position(1, 10, -3, true), 15);
    assert_eq!(scale_position(1, 10, -8, true), 3);
}

#[test]
fn simple_keys_release_with_zero_velocity() {
    let mut keys = loop_drop::midi_keys::MidiKeys::new(2);
    keys.note(5, OutputValue::On(100), 64);
    keys.note(5, OutputValue::Off, 0);
    keys.note(6, OutputValue::Off, 0);
    assert_eq!(keys.take_messages(), vec![MidiMessage::Three(145, 64, 100), MidiMessage::Three(145, 64, 0)]);
    let mut volca = VolcaKeys::new(3);
    volca.trigger(1, OutputValue::On(100), 50);
    assert_eq!(volca.take_messages(), vec![MidiMessage::Three(146, 50, 100)]);
}

#[test]
fn vt4_follows_the_key_unless_robot_is_on() {
    let mut vt4 = VT4::new();
    assert_eq!(vt4.handle_input(&[176, 49, 0]), Some(robot_state_request()));
    vt4.on_tick(60, 0);
    vt4.on_tick(60, 0);
    assert_eq!(vt4.take_messages(), vec![MidiMessage::Three(176, 48, 0)]);
    vt4.trigger(0, OutputValue::On(100), 60);
    vt4.on_tick(62, 0);
    assert_eq!(vt4.take_messages(), vec![MidiMessage::Three(144, 60, 100)]);
    let report = VT4SysExMessage::new(VT4Command::SetParameter, [0x10, 0, 0, 0], vec![0]).to_sysex().unwrap();
    assert_eq!(vt4.handle_input(&report), None);
    vt4.on_tick(62, 0);
    assert_eq!(vt4.take_messages(), vec![MidiMessage::Three(176, 48, 2)]);
}

#[test]
fn kboard_plays_the_latest_key_on_the_synth() {
    let mut board = KBoard::new(1, 2);
    let scale = HashSet::new();
    let a = board.handle(KBoardMessage::Trigger(60, 100), &scale, 60, true);
    assert_eq!(a.poly, vec![MidiMessage::Three(145, 60, 100)]);
    assert_eq!(a.synth, vec![MidiMessage::Three(176, 17, 127), MidiMessage::Three(144, 60, 100)]);
    assert_eq!(a.follow_up, vec![KBoardMessage::RefreshNote(60)]);
    let a = board.handle(KBoardMessage::Trigger(62, 90), &scale, 60, true);
    assert_eq!(a.synth, vec![MidiMessage::Three(128, 60, 100), MidiMessage::Three(144, 62, 90)]);
    let a = board.handle(KBoardMessage::Trigger(62, 0), &scale, 60, true);
    assert_eq!(a.poly, vec![MidiMessage::Three(129, 62, 0)]);
    assert_eq!(a.synth, vec![MidiMessage::Three(128, 62, 0), MidiMessage::Three(144, 60, 100)]);
    assert_eq!(a.follow_up, vec![KBoardMessage::RefreshScale, KBoardMessage::RefreshNote(62)]);
    let a = board.handle(KBoardMessage::Trigger(60, 0), &scale, 60, true);
    assert_eq!(a.synth, vec![MidiMessage::Three(128, 60, 0), MidiMessage::Three(176, 17, 0)]);
    assert!(board.trigger_stack.is_empty());
}

#[test]
fn kboard_lights_show_scale_active_and_blink() {
    let mut board = KBoard::new(1, 2);
    let mut scale = HashSet::new();
    scale.insert(0u32);
    scale.insert(4u32);
    let a = board.handle(KBoardMessage::RefreshScale, &scale, 60, true);
    assert_eq!(a.lights.len(), 25);
    assert_eq!(a.lights[0], MidiMessage::Three(144, 0, 127));
    assert_eq!(a.lights[1], MidiMessage::Three(144, 1, 0));
    assert_eq!(a.lights[4], MidiMessage::Three(144, 4, 127));
    assert!(board.handle(KBoardMessage::RefreshScale, &scale, 60, false).lights.is_empty());
    let a = board.handle(KBoardMessage::Input(5, 0), &scale, 60, true);
    assert_eq!(a.input, Some((5, OutputValue::Off)));
    let a = board.handle(KBoardMessage::TriggerMode(TriggerModeChange::Active(3, true)), &scale, 60, true);
    assert_eq!(a.follow_up, vec![KBoardMessage::RefreshNote(3)]);
    let a = board.handle(KBoardMessage::TriggerMode(TriggerModeChange::Active(3, true)), &scale, 60, true);
    assert!(a.follow_up.is_empty());
    let a = board.handle(KBoardMessage::RefreshActive, &scale, 60, true);
    assert_eq!(a.lights.len(), 129);
    assert_eq!(a.lights[128], MidiMessage::Three(144, 3, 127));
    let a = board.handle(KBoardMessage::Tick(5), &scale, 60, true);
    assert_eq!(a.lights, vec![MidiMessage::Three(144, 60, 0), MidiMessage::Three(144, 72, 0)]);
    // selecting the scale keeps single key lights off
    assert!(board.handle(KBoardMessage::RefreshNote(3), &scale, 60, true).lights.is_empty());
}
