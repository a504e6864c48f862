use loop_drop::loop_grid_launchpad::{adjust_velocity, get_grid_map, Light, TriggerMode, VELOCITY_THRESHOLD};

#[test]
fn test_adjust_velocity() {
    assert_eq!(adjust_velocity(0), 0);
    assert_eq!(adjust_velocity(VELOCITY_THRESHOLD), 0);
    assert_eq!(adjust_velocity(VELOCITY_THRESHOLD + 1), 1);
    assert_eq!(adjust_velocity(VELOCITY_THRESHOLD + 2), 2);
    assert_eq!(adjust_velocity(64), 52);
    assert_eq!(adjust_velocity(126), 125);
    assert_eq!(adjust_velocity(127), 127);
}

#[test]
fn adjust_velocity_caps_hard_presses() {
    assert_eq!(adjust_velocity(19), 0);
    assert_eq!(adjust_velocity(200), 127);
    assert_eq!(adjust_velocity(255), 127);
}

#[test]
fn launchpad_grid_map_round_trips() {
    let (midi_to_id, id_to_midi) = get_grid_map();
    assert_eq!(id_to_midi.len(), 64);
    assert_eq!(id_to_midi[&0], 81);
    assert_eq!(id_to_midi[&7], 88);
    assert_eq!(id_to_midi[&56], 11);
    assert_eq!(id_to_midi[&63], 18);
    for (id, note) in id_to_midi.iter() {
        assert_eq!(midi_to_id[note], *id);
    }
}

#[test]
fn launchpad_trigger_mode_ids() {
    for id in 0..4 {
        assert_eq!(TriggerMode::from_id(id).to_id(), id);
    }
    assert_eq!(TriggerMode::from_id(9), TriggerMode::Immediate);
}

#[test]
fn launchpad_light_palette() {
    assert_eq!(Light::Yellow.value(), 13);
    assert_eq!(Light::Value(42).value(), 42);
    assert_eq!(Light::Unset.unwrap_or(Light::Red), Light::Red);
    assert_eq!(Light::Green.unwrap_or(Light::Red), Light::Green);
}
