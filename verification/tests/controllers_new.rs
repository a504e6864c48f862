use loop_drop::config::{Modulator, TriggerCondition};
use loop_drop::controllers::midi_ease_out;
use loop_drop::controllers::clock_pulse::ClockPulse;
use loop_drop::controllers::sample_mixer::{digital_feedback_frame, mute_light, MixerLights, SampleMixerState};
use loop_drop::controllers::init::Init;
use loop_drop::controllers::launchpad_tempo::{get_mode, get_mode_message, LaunchpadTempo};
use loop_drop::controllers::modulation_surface::{
    decode_relative_encoder_delta, lfo_speed_overlay_value, lfo_wave_overlay_mode, root_note_from_value,
    sample_activity_channel,
};
use loop_drop::controllers::vt4_key::VT4Key;
use loop_drop::controllers::MidiModulator;
use loop_drop::devices::MidiMessage;
use loop_drop::midi_time::MidiTime;

#[test]
fn clock_pulse_every_divider_ticks() {
    let mut pulse = ClockPulse::new(2, 6);
    for t in 0..14 {
        pulse.tick(MidiTime::from_ticks(t));
    }
    assert_eq!(
        pulse.take_messages(),
        vec![
            MidiMessage::Three(145, 64, 127),
            MidiMessage::Three(129, 64, 0),
            MidiMessage::Three(145, 64, 127),
            MidiMessage::Three(129, 64, 0),
            MidiMessage::Three(145, 64, 127),
        ]
    );
}

#[test]
fn launchpad_settings_button_opens_tempo_mode() {
    let programmer = get_mode_message((17, 0));
    let settings = get_mode_message((18, 0));
    assert_eq!(get_mode(&programmer), Some((17, 0)));
    assert_eq!(get_mode(&[240, 0, 32, 41, 2, 14, 0, 17, 0, 1, 247]), None);
    let mut watcher = LaunchpadTempo::new();
    assert!(watcher.handle_message(&programmer).is_empty());
    assert_eq!(watcher.handle_message(&programmer), vec![get_mode_message((15, 0))]);
    assert!(watcher.handle_message(&settings).is_empty());
    assert_eq!(watcher.handle_message(&get_mode_message((15, 0))), vec![programmer.clone()]);
    assert!(watcher.handle_message(&[144, 1, 1]).is_empty());
}

#[test]
fn vt4_key_is_sent_when_it_changes() {
    let mut key = VT4Key::new(1);
    key.schedule(60, 0);
    key.schedule(60, 0);
    key.schedule(62, 0);
    assert_eq!(key.take_messages(), vec![MidiMessage::Three(176, 48, 0), MidiMessage::Three(176, 48, 2)]);
}

#[test]
fn init_sends_defaults_once() {
    let modulator = MidiModulator::new(1, Modulator::Cc(7, 100), None);
    let mut init = Init::new(vec![modulator]);
    init.schedule(MidiTime::zero());
    init.schedule(MidiTime::from_ticks(1));
}

#[test]
fn surface_helpers() {
    assert_eq!(decode_relative_encoder_delta(64), None);
    assert_eq!(decode_relative_encoder_delta(65), Some(1));
    assert_eq!(decode_relative_encoder_delta(0), Some(-63));
    assert_eq!(decode_relative_encoder_delta(255), Some(63));
    assert_eq!(lfo_speed_overlay_value(0), "3B");
    assert_eq!(lfo_speed_overlay_value(64), "2");
    assert_eq!(lfo_speed_overlay_value(127), "8");
    assert_eq!(lfo_wave_overlay_mode(25), "TRI");
    assert_eq!(lfo_wave_overlay_mode(26), "UP");
    assert_eq!(lfo_wave_overlay_mode(127), "DWN");
    assert_eq!(root_note_from_value(64), 60);
    assert_eq!(root_note_from_value(127), 72);
    assert_eq!(root_note_from_value(0), 48);
    assert_eq!(root_note_from_value(60), 60);
    assert_eq!(sample_activity_channel(2), 10);
    assert_eq!(sample_activity_channel(9), 15);
}

#[test]
fn modulator_sends_each_kind() {
    let mut m = MidiModulator::new(
        2,
        Modulator::Multi(vec![
            Modulator::Cc(7, 100),
            Modulator::InvertCc(8, 0),
            Modulator::MaxCc(9, 64, 0),
            Modulator::Aftertouch(0),
            Modulator::TriggerWhen(TriggerCondition::Gt(100), (36, 90)),
        ]),
        None,
    );
    m.send(127);
    m.send(10);
    assert_eq!(
        m.take_messages(),
        vec![
            MidiMessage::Three(177, 7, 127),
            MidiMessage::Three(177, 8, 0),
            MidiMessage::Three(177, 9, 64),
            MidiMessage::Two(209, 127),
            MidiMessage::Three(145, 36, 90),
            MidiMessage::Three(177, 7, 10),
            MidiMessage::Three(177, 8, 117),
            MidiMessage::Three(177, 9, 5),
            MidiMessage::Two(209, 10),
            MidiMessage::Three(129, 36, 0),
        ]
    );
    assert_eq!(midi_ease_out(0), 0);
    assert_eq!(midi_ease_out(127), 127);
    assert_eq!(midi_ease_out(64), 95);
}

#[test]
fn modulator_pitch_bend_and_defaults() {
    let mut bend = MidiModulator::new(1, Modulator::PitchBend(8192), None);
    bend.send(64);
    bend.send(0);
    bend.send(127);
    bend.send_default();
    bend.send_polar_twelfths(12);
    bend.send_polar_twelfths(0);
    assert_eq!(
        bend.take_messages(),
        vec![
            MidiMessage::Three(224, 0, 64),
            MidiMessage::Three(224, 0, 0),
            MidiMessage::Three(224, 127, 127),
            MidiMessage::Three(224, 0, 64),
            MidiMessage::Three(224, 127, 127),
            MidiMessage::Three(224, 0, 64),
        ]
    );
    let mut cc = MidiModulator::new(1, Modulator::Cc(1, 33), None);
    cc.send_default();
    assert_eq!(cc.take_messages(), vec![MidiMessage::Three(176, 1, 33)]);
    assert!(cc.get_rx_port().is_none());
}

#[test]
fn sample_mixer_follows_sliders_and_mutes() {
    let mut state = SampleMixerState::new();
    assert_eq!(state.multipliers, [127; 8]);
    assert!(!state.handle_controller_message(&[177, 18, 100], false));
    assert_eq!(state.sliders[2], 100);
    assert!(state.slider_seen[2]);
    assert!(state.dirty[2]);
    // an unknown control changes nothing
    assert!(!state.handle_controller_message(&[177, 40, 100], false));
    assert_eq!(state.sliders, [0, 0, 100, 0, 0, 0, 0, 0]);
    state.handle_controller_message(&[145, 63, 127], false);
    assert!(state.mute_held[2] && state.muted[2]);
    state.handle_controller_message(&[129, 63, 0], false);
    assert!(!state.mute_held[2] && !state.muted[2]);
    // released with the latch on, the mute stays
    state.handle_controller_message(&[145, 64, 100], true);
    state.handle_controller_message(&[145, 64, 0], true);
    assert!(state.muted[3] && state.mute_latched[3] && !state.mute_held[3]);
    assert!(state.handle_controller_message(&[0xF0, 0x79, 0x74, 0x78, 0x01, 0x00, 0x00, 0x1E, 0xF7], false));
}

#[test]
fn sample_mixer_sends_dirty_sliders_once() {
    let mut state = SampleMixerState::new();
    state.handle_controller_message(&[177, 16, 90], false);
    state.handle_controller_message(&[177, 17, 90], false);
    state.handle_controller_message(&[145, 62, 127], false);
    let levels = [80, 81, 82, 83, 84, 85, 86, 87];
    let ccs = vec![1, 2, 3, 4, 5, 6, 7, 8];
    assert_eq!(
        state.refresh_output(&levels, 3, &ccs),
        vec![MidiMessage::Three(178, 1, 80), MidiMessage::Three(178, 2, 0)]
    );
    assert!(state.refresh_output(&levels, 3, &ccs).is_empty());
    assert_eq!(state.last_sent[0], 80);
    assert_eq!(state.dirty, [false; 8]);
}

#[test]
fn sample_mixer_lights_follow_readiness() {
    assert_eq!(mute_light(true, true), 127);
    assert_eq!(mute_light(false, true), 1);
    assert_eq!(mute_light(false, false), 0);
    let mut lights = MixerLights::new();
    let mut flashing = [false; 8];
    flashing[0] = true;
    let mut muted = [false; 8];
    muted[1] = true;
    assert!(lights.refresh(false, flashing, muted).is_empty());
    let all = lights.refresh(true, flashing, muted);
    assert_eq!(all.len(), 8);
    assert_eq!(all[0], (16, 127, 127));
    assert_eq!(all[1], (17, 1, 127));
    assert_eq!(all[7], (23, 0, 0));
    assert!(lights.refresh(true, flashing, muted).is_empty());
    muted[1] = false;
    assert_eq!(lights.refresh(true, flashing, muted), vec![(17, 0, 0)]);
    // losing the controller forgets the lights
    lights.refresh(false, flashing, muted);
    assert_eq!(lights.last_lights, [255; 8]);
    assert_eq!(
        digital_feedback_frame(&[(16, 1, 127), (200, 0, 0)]),
        vec![0xF0, 0x79, 0x74, 0x78, 0x00, 0x01, 0x00, 0x1D, 0x00, 2, 16, 0, 1, 127, 72, 1, 0, 0, 0xF7]
    );
    assert!(digital_feedback_frame(&[]).is_empty());
}
