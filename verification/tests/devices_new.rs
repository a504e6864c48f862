use loop_drop::config::{PerfectQuality, Quality, ScaleDegree};
use loop_drop::devices::cc_slicer::CcSlicer;
use loop_drop::devices::choke_switch::{ChokeSwitch, SP404Choke};
use loop_drop::devices::keyboard::Keyboard;
use loop_drop::devices::midi_slicer::MidiSlicer;
use loop_drop::devices::mono_midi_keys::MonoMidiKeys;
use loop_drop::devices::root_select::RootSelect;
use loop_drop::devices::scale_select::{DegreeQualities, ScaleDegreeToggle};
use loop_drop::devices::sp404mk2::{detect_cue, position_of, trigger_at, Sp404Mk2};
use loop_drop::devices::umi3::Umi3;
use loop_drop::devices::vt3::VT3;
use loop_drop::devices::vt4::{
    get_mode_offset, robot_input, robot_key_for, robot_state_request, sysex_length, RobotInput, VT4Command,
    VT4SysExMessage,
};
use loop_drop::devices::MidiMessage;
use loop_drop::loop_grid_launchpad::LoopGridRemoteEvent;
use loop_drop::midi_time::MidiTime;
use loop_drop::output_value::OutputValue;
use std::collections::{HashMap, HashSet};

#[test]
fn sp404_pads_number_from_the_bottom() {
    assert_eq!(trigger_at(0), 20);
    assert_eq!(trigger_at(23), 3);
    assert_eq!(trigger_at(24), 24);
    assert_eq!(position_of(20), 0);
    assert_eq!(position_of(3), 23);
    assert_eq!(position_of(30), 24);
}

#[test]
fn sp404_plays_mapped_pads_and_ducks_the_sidechain() {
    let mut sampler = Sp404Mk2::new(&vec![(0, 0, 0), (1, 5, 3), (2, 9, 0)], None, Some(0));
    assert!(sampler.check_lit(0));
    assert!(sampler.check_lit(1));
    assert!(!sampler.check_lit(2));
    assert!(sampler.trigger(0, OutputValue::On(100)));
    assert!(!sampler.trigger(1, OutputValue::On(50)));
    assert!(!sampler.trigger(2, OutputValue::On(50)));
    assert!(!sampler.trigger(0, OutputValue::Off));
    assert_eq!(
        sampler.take_messages(),
        vec![MidiMessage::Three(144, 56, 100), MidiMessage::Three(145, 39, 50), MidiMessage::Three(128, 56, 0)]
    );
}

#[test]
fn sp404_cue_moves_selected_triggers() {
    let mut sampler = Sp404Mk2::new(&vec![(0, 0, 0)], None, None);
    sampler.select(5, true);
    sampler.select(3, true);
    // pad 13 (note 49) is at position 9: row 2, column 1, so two selected start at column 0
    sampler.on_tick(4, 49);
    assert!(!sampler.check_lit(3));
    sampler.on_tick(0, 0);
    assert!(sampler.check_lit(3));
    assert!(sampler.check_lit(5));
    sampler.trigger(3, OutputValue::On(10));
    sampler.trigger(5, OutputValue::On(10));
    assert_eq!(sampler.take_messages(), vec![MidiMessage::Three(147, 48, 10), MidiMessage::Three(147, 49, 10)]);
}

#[test]
fn sp404_cue_is_a_lone_note_off() {
    let mut down = HashSet::new();
    assert_eq!(detect_cue(&mut down, &[145, 40, 100]), None);
    assert_eq!(detect_cue(&mut down, &[129, 40, 0]), None);
    assert_eq!(detect_cue(&mut down, &[129, 40, 0]), Some((2, 40)));
    assert_eq!(detect_cue(&mut down, &[139, 40, 0]), None);
    assert_eq!(detect_cue(&mut down, &[143, 41, 0]), Some((16, 41)));
    assert_eq!(detect_cue(&mut down, &[248]), None);
}

#[test]
fn cc_slicer_retriggers_one_note() {
    let mut slicer = CcSlicer::new(2, 20, None);
    let mut pitches = HashMap::new();
    pitches.insert(1, 127);
    let mut offsets = HashMap::new();
    offsets.insert(1, 33);
    slicer.on_tick(MidiTime::zero());
    slicer.trigger(0, OutputValue::On(90), &pitches, &offsets);
    slicer.trigger(1, OutputValue::On(80), &pitches, &offsets);
    slicer.trigger(0, OutputValue::Off, &pitches, &offsets);
    slicer.trigger(1, OutputValue::Off, &pitches, &offsets);
    assert_eq!(
        slicer.take_messages(),
        vec![
            MidiMessage::Three(177, 20, 0),
            MidiMessage::Three(225, 0, 0),
            MidiMessage::Three(145, 60, 90),
            MidiMessage::Three(177, 20, 33),
            MidiMessage::Three(225, 127, 127),
            MidiMessage::Three(145, 60, 0),
            MidiMessage::Three(145, 60, 80),
            MidiMessage::Three(145, 60, 0),
        ]
    );
}

#[test]
fn midi_slicer_spreads_slices() {
    let mut slicer = MidiSlicer::new(1, 40, 4, None);
    let pitches = HashMap::new();
    let mut offsets = HashMap::new();
    offsets.insert(0, 10);
    offsets.insert(3, 30);
    offsets.insert(1, 127);
    offsets.insert(2, 64);
    slicer.trigger(0, OutputValue::On(100), &pitches, &offsets);
    slicer.trigger(1, OutputValue::On(100), &pitches, &offsets);
    slicer.trigger(2, OutputValue::On(100), &pitches, &offsets);
    slicer.trigger(3, OutputValue::On(100), &pitches, &offsets);
    slicer.trigger(2, OutputValue::Off, &pitches, &offsets);
    let notes: Vec<MidiMessage> = slicer.take_messages().into_iter().filter(|m| matches!(m, MidiMessage::Three(144, ..))).collect();
    // 10 + 20 * 64 / 127 = 20
    assert_eq!(
        notes,
        vec![
            MidiMessage::Three(144, 50, 100),
            MidiMessage::Three(144, 70, 100),
            MidiMessage::Three(144, 60, 100),
            MidiMessage::Three(144, 70, 100),
            MidiMessage::Three(144, 60, 0),
        ]
    );
}

#[test]
fn midi_slicer_plays_consecutive_slices_when_the_range_is_empty() {
    let mut slicer = MidiSlicer::new(3, 100, 2, None);
    let pitches = HashMap::new();
    let offsets = HashMap::new();
    slicer.trigger(1, OutputValue::On(5), &pitches, &offsets);
    assert_eq!(slicer.take_messages()[0], MidiMessage::Three(146, 101, 5));
}

#[test]
fn vt4_sysex_round_trip() {
    let message = VT4SysExMessage::new(VT4Command::SetParameter, [0x10, 0, 0, 0], vec![1]);
    let bytes = message.to_sysex().unwrap();
    assert_eq!(bytes, vec![0xF0, 0x41, 0x10, 0x00, 0x00, 0x00, 0x51, 0x12, 0x10, 0, 0, 0, 1, 0x6F, 0xF7]);
    assert!(VT4SysExMessage::is_sysex(&bytes));
    assert_eq!(VT4SysExMessage::from(&bytes), Some(message));
    assert_eq!(robot_input(&bytes), RobotInput::RobotMode(true));
    assert_eq!(robot_input(&[176, 49, 0]), RobotInput::RequestState);
    assert_eq!(robot_input(&[176, 49, 1]), RobotInput::Ignore);
    assert_eq!(VT4SysExMessage::new(VT4Command::Unknown, [0; 4], vec![]).to_sysex(), None);
    assert_eq!(VT4Command::from(0x11), VT4Command::Request);
    assert_eq!(sysex_length(129), vec![0, 0, 0, 1]);
    assert_eq!(
        robot_state_request(),
        vec![0xF0, 0x41, 0x10, 0x00, 0x00, 0x00, 0x51, 0x11, 0x10, 0, 0, 0, 0, 0, 0, 1, 0x6F, 0xF7]
    );
}

#[test]
fn vt4_keys_follow_the_mode() {
    assert_eq!(get_mode_offset(0), 0);
    assert_eq!(get_mode_offset(2), 4);
    assert_eq!(get_mode_offset(6), 11);
    assert_eq!(get_mode_offset(9), 11);
    // C major
    assert_eq!(robot_key_for(60, 0), 0);
    // D dorian (second mode of C): key C
    assert_eq!(robot_key_for(62, 1), 0);
    // A below middle C, aeolian: key C
    assert_eq!(robot_key_for(57, 5), 0);
}

#[test]
fn vt3_is_monophonic_in_robot_mode() {
    let mut synth = VT3::new();
    synth.trigger(1, OutputValue::On(100), 60);
    synth.trigger(2, OutputValue::On(90), 64);
    synth.trigger(2, OutputValue::Off, 0);
    synth.trigger(1, OutputValue::Off, 0);
    assert_eq!(
        synth.take_messages(),
        vec![
            MidiMessage::Three(176, 17, 127),
            MidiMessage::Three(144, 60, 100),
            MidiMessage::Three(128, 60, 100),
            MidiMessage::Three(144, 64, 90),
            MidiMessage::Three(128, 64, 0),
            MidiMessage::Three(144, 60, 100),
            MidiMessage::Three(128, 60, 0),
            MidiMessage::Three(176, 17, 0),
        ]
    );
}

#[test]
fn mono_keys_bring_back_the_earlier_key() {
    let mut keys = MonoMidiKeys::new(1, 0, None);
    keys.trigger(1, OutputValue::On(100), 60);
    keys.trigger(2, OutputValue::On(80), 62);
    assert_eq!(keys.top(), Some(2));
    keys.trigger(2, OutputValue::Off, 0);
    assert_eq!(keys.top(), Some(1));
    keys.on_tick(61);
    assert_eq!(
        keys.take_messages(),
        vec![
            MidiMessage::Three(144, 60, 100),
            MidiMessage::Three(144, 62, 80),
            MidiMessage::Three(128, 60, 0),
            MidiMessage::Three(144, 60, 100),
            MidiMessage::Three(128, 62, 0),
            MidiMessage::Three(144, 61, 100),
            MidiMessage::Three(144, 60, 0),
        ]
    );
}

#[test]
fn keyboard_moves_first_channel_messages() {
    let keyboard = Keyboard::new(3);
    assert_eq!(keyboard.reroute(&[144, 60, 100]), Some(vec![146, 60, 100]));
    assert_eq!(keyboard.reroute(&[192, 5]), Some(vec![194, 5]));
    assert_eq!(keyboard.reroute(&[145, 60, 100]), None);
    assert_eq!(keyboard.reroute(&[248]), None);
}

#[test]
fn foot_switch_buttons() {
    let umi = Umi3::new();
    assert_eq!(umi.remote_event(&[144, 60, 127]), Some(LoopGridRemoteEvent::LoopButton(true)));
    assert_eq!(umi.remote_event(&[144, 62, 0]), Some(LoopGridRemoteEvent::DoubleButton(false)));
    assert_eq!(umi.remote_event(&[144, 64, 1]), Some(LoopGridRemoteEvent::SustainButton(true)));
    assert_eq!(umi.remote_event(&[144, 65, 1]), None);
    assert_eq!(umi.remote_event(&[128, 60, 0]), None);
}

#[test]
fn choke_switch_sets_groups() {
    let mut switch = ChokeSwitch::new(SP404Choke { a: false, b: false });
    switch.trigger(0, OutputValue::On(1));
    switch.trigger(1, OutputValue::On(1));
    switch.trigger(1, OutputValue::Off);
    switch.trigger(5, OutputValue::On(1));
    assert_eq!(switch.chokes(), SP404Choke { a: true, b: false });
}

#[test]
fn degree_toggles_follow_the_newest_press() {
    let mut qualities = DegreeQualities {
        second: Quality::Major,
        third: Quality::Major,
        fourth: PerfectQuality::Perfect,
        fifth: PerfectQuality::Perfect,
        sixth: Quality::Major,
        seventh: Quality::Major,
    };
    let mut toggle = ScaleDegreeToggle::new(ScaleDegree::Third);
    toggle.trigger(1, OutputValue::On(100), &mut qualities);
    assert_eq!(qualities.third, Quality::Minor);
    assert_eq!(toggle.check_triggering(1, &qualities), Some(true));
    assert_eq!(toggle.check_triggering(0, &qualities), Some(false));
    toggle.trigger(0, OutputValue::On(100), &mut qualities);
    assert_eq!(qualities.third, Quality::Major);
    toggle.trigger(0, OutputValue::Off, &mut qualities);
    assert_eq!(qualities.third, Quality::Minor);
    let mut fifth = ScaleDegreeToggle::new(ScaleDegree::Fifth);
    fifth.trigger(1, OutputValue::On(1), &mut qualities);
    assert_eq!(qualities.fifth, PerfectQuality::Diminished);
}

#[test]
fn root_select_follows_the_newest_press() {
    let mut select = RootSelect::new(Vec::new());
    assert_eq!(select.trigger(3, OutputValue::On(1)), Some(55));
    assert_eq!(select.trigger(8, OutputValue::On(1)), Some(60));
    assert_eq!(select.trigger(3, OutputValue::On(1)), Some(60));
    assert_eq!(select.trigger(8, OutputValue::Off), Some(55));
    assert_eq!(select.on_tick(MidiTime::from_ticks(3)), None);
    assert_eq!(select.on_tick(MidiTime::from_beats(2)), Some(55));
    assert_eq!(select.trigger(3, OutputValue::Off), None);
    assert_eq!(select.check_triggering(8, 60), Some(true));
    assert_eq!(select.check_triggering(8, 40), None);
}
