use loop_drop::audio_recorder::{event_log_line, AudioRecorderEvent, LastTrigger};
use loop_drop::chunk::RepeatMode;
use loop_drop::config::{Config, ControllerConfig, DeviceConfig, Modulator, ModulatorConfig, ScaleDegree};
use loop_drop::devices::blofeld_drums::BlofeldDrumParams;
use loop_drop::devices::cc_triggers::MidiTrigger;
use loop_drop::text::decimal_string_u64;

fn covering(config: &Config, row: u32, col: u32) -> Vec<usize> {
    let mut owners = Vec::new();
    for (i, c) in config.chunks.iter().enumerate() {
        if c.coords.row <= row
            && row < c.coords.row + c.shape.rows
            && c.coords.col <= col
            && col < c.coords.col + c.shape.cols
        {
            owners.push(i);
        }
    }
    owners
}

#[test]
fn default_setup_tiles_the_grid_once() {
    let config = Config::default();
    assert_eq!(config.chunks.len(), 14);
    for row in 0..17 {
        for col in 0..8 {
            assert_eq!(covering(&config, row, col).len(), 1, "cell {} {}", row, col);
        }
    }
    assert_eq!(covering(&config, 17, 0).len(), 0);
    assert_eq!(covering(&config, 0, 0), vec![10]);
    assert_eq!(covering(&config, 16, 5), vec![7]);
}

#[test]
fn default_setup_chunks() {
    let config = Config::default();
    let slicer = &config.chunks[9];
    assert_eq!((slicer.coords.row, slicer.coords.col), (1, 0));
    assert_eq!((slicer.shape.rows, slicer.shape.cols), (2, 8));
    assert_eq!(slicer.channel, Some(15));
    assert_eq!(slicer.repeat_mode, RepeatMode::NoCycle);
    match &slicer.device {
        DeviceConfig::Multi { devices } => match &devices[0] {
            DeviceConfig::CcTriggers { output, triggers, .. } => {
                assert_eq!(output.channel, 3);
                assert_eq!(triggers.len(), 16);
                assert!(matches!(triggers[15], MidiTrigger::NoteVelocity(3, 127)));
            }
            _ => panic!("slicer plays triggers"),
        },
        _ => panic!("slicer is a combination"),
    }
    assert_eq!(config.chunks[0].trigger_channels, Some(vec![12, 13, 14, 15]));
    assert!(matches!(config.chunks[6].device, DeviceConfig::ScaleDegreeToggle(ScaleDegree::Third)));
    match &config.chunks[12].device {
        DeviceConfig::MidiKeys { output, offset_id, monophonic, octave_offset, .. } => {
            assert_eq!(output.name, "Univer Inter");
            assert_eq!(output.channel, 14);
            assert_eq!(offset_id, "bass");
            assert!(*monophonic);
            assert_eq!(*octave_offset, -2);
        }
        _ => panic!("bass keys"),
    }
    assert_eq!(config.straight_trigger_ids, vec![6]);
    assert_eq!(config.clock_input_port_name, "Launchpad Pro MK3");
    assert_eq!(config.clock_output_port_names, vec![String::from("Univer Inter")]);
    assert!(config.keep_alive_port_names.is_empty());
}

#[test]
fn default_setup_controllers() {
    let config = Config::default();
    assert_eq!(config.controllers.len(), 4);
    match &config.controllers[1] {
        ControllerConfig::ModTwister { port_name, continuously_send_rr, modulators, channel_map, .. } => {
            assert_eq!(port_name, "Midi Fighter Twister");
            assert_eq!(continuously_send_rr, &(16..32).collect::<Vec<usize>>());
            assert_eq!(modulators.len(), 64);
            assert!(matches!(modulators[0], ModulatorConfig::Swing(0)));
            assert!(matches!(modulators[63], ModulatorConfig::SlicerPitch(1, 3, 63)));
            assert_eq!(channel_map.len(), 44);
            assert_eq!(channel_map.get(&4), Some(&2));
            assert_eq!(channel_map.get(&19), Some(&4));
            assert_eq!(channel_map.get(&27), Some(&15));
            assert_eq!(channel_map.get(&53), Some(&17));
            assert_eq!(channel_map.get(&63), Some(&23));
            assert_eq!(channel_map.get(&40), None);
        }
        _ => panic!("second controller is the modulation controller"),
    }
    match &config.controllers[2] {
        ControllerConfig::ClockPulse { output, divider } => {
            assert_eq!(output.channel, 12);
            assert_eq!(*divider, 6);
        }
        _ => panic!("clock pulse"),
    }
}

#[test]
fn minimal_setup() {
    let config = Config::minimal();
    assert_eq!(config.chunks.len(), 12);
    assert_eq!(covering(&config, 3, 2), vec![9, 10]);
    match &config.chunks[8].device {
        DeviceConfig::Sp404Mk2 { port_name, velocity_map, sidechain_output } => {
            assert_eq!(port_name, "SP-404MKII");
            assert_eq!(velocity_map.as_ref().map(|v| v.len()), Some(11));
            assert!(sidechain_output.is_none());
        }
        _ => panic!("sampler"),
    }
    assert_eq!(config.resync_port_names, vec![String::from("Launchpad Pro MK3 PORT 2")]);
    assert_eq!(config.controllers.len(), 2);
    assert!(config.straight_trigger_ids.is_empty());
}

#[test]
fn modulator_parts() {
    let single = Modulator::Cc(7, 64);
    let parts = single.all();
    assert_eq!(parts.len(), 1);
    assert!(matches!(parts[0], Modulator::Cc(7, 64)));
    let combined = Modulator::Multi(vec![Modulator::Cc(1, 0), Modulator::Aftertouch(5)]);
    let parts = combined.all();
    assert_eq!(parts.len(), 2);
    assert!(matches!(parts[1], Modulator::Aftertouch(5)));
}

#[test]
fn modulator_config_ports() {
    match ModulatorConfig::new("Port", 3, Modulator::Cc(1, 2)) {
        ModulatorConfig::Midi { port, rx_port, .. } => {
            assert_eq!(port.name, "Port");
            assert_eq!(port.channel, 3);
            assert!(rx_port.is_none());
        }
        _ => panic!("midi modulator"),
    }
    match ModulatorConfig::rx("Port", 3, Modulator::Cc(1, 2)) {
        ModulatorConfig::Midi { rx_port, .. } => {
            let rx = rx_port.expect("follows the port");
            assert_eq!(rx.name, "Port");
            assert_eq!(rx.channel, 3);
        }
        _ => panic!("midi modulator"),
    }
}

#[test]
fn event_log_lines() {
    assert_eq!(event_log_line(3, 42, &AudioRecorderEvent::Tempo(120)), "[3.000042, \"tempo\", 120]\n");
    assert_eq!(event_log_line(0, 999999, &AudioRecorderEvent::Tick), "[0.999999, \"tick\"]\n");
    assert_eq!(
        event_log_line(61, 5, &AudioRecorderEvent::ChannelVolume(2, 100)),
        "[61.000005, \"channel_volume\", 2, 100]\n"
    );
    assert_eq!(decimal_string_u64(u64::MAX), "18446744073709551615");
}

#[test]
fn blofeld_drum_params_hold_eight_steps() {
    let params = BlofeldDrumParams { velocities: [100; 8], x: [0; 8] };
    assert_eq!(params.velocities.len(), 8);
    assert_eq!(params.x[7], 0);
}

#[test]
fn last_trigger_counts_from_the_last_hit() {
    let mut last = LastTrigger::new();
    assert!(last.since_trigger().is_none());
    last.trigger();
    let since = last.since_trigger().expect("played just now");
    assert!(since.as_secs() < 60);
}
