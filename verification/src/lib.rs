use vstd::prelude::*;

pub mod text;
pub mod midi_time;
pub mod output_value;
pub mod loop_event;
pub mod loop_transform;
pub mod transform_map;
pub mod loop_state;
pub mod loop_recorder;
pub mod chunk;
pub mod devices;
pub mod config;
pub mod controllers;
pub mod midi_connection;

pub mod loop_grid;
pub mod loop_grid_launchpad;
pub mod lfo;
pub mod midi_keys;
pub mod clock_source;
pub mod trigger_history;
pub mod audio_recorder;
pub mod grid_map;
