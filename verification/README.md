# loop_drop

A live looper for MIDI controllers: a grid of pads records and plays back loops of
triggers, in time with a MIDI clock, and drives drum machines, samplers and synths.

The library in `src/` is written in Verus, and each function carries a contract that
Verus proves:

- `midi_time`, `output_value`, `loop_event`, `loop_transform`, `loop_recorder`,
  `loop_state`: clock positions, recorded events, the transforms a trigger plays, and the
  undo/redo history of loops.
- `loop_grid`: the grid controller's state machine. `LoopGrid::grid_input_event` takes an
  input (decoded from MIDI bytes by `decode_grid_message`) to the next state, as
  `grid_step` states; `get_events` gives what plays in a clock window and
  `schedule_order` the order it is sent in.
- `loop_grid_launchpad`: the pad controller's note map and its messages.
- `controllers`: the encoder controllers' loop (`TwisterState::step`: turns, recorded
  loops, freezing and cueing), clock pulses, tempo and the modulators' messages.
- `devices`: the instruments' message formats, from note maps to system-exclusive
  messages with their checksums.
- `config`, `grid_map`: the default setup and where each chunk sits on the grid.

`app/` is the program around the library: MIDI ports, threads, files, and the few
computations in floating point. `tests/` runs the library on concrete values.
