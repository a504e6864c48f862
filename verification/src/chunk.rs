use vstd::prelude::*;

use crate::midi_time::MidiTime;
use crate::output_value::OutputValue;

verus! {

/// Something the grid can trigger: a device, or a control that changes shared state.
pub trait Triggerable: Send {
    /// A trigger of this chunk changed value.
    fn trigger(&mut self, id: u32, value: OutputValue);

    /// The clock moved on.
    fn on_tick(&mut self, _time: MidiTime) {
    }

    /// How held triggers of this chunk latch; unless a chunk says otherwise, not at all.
    fn latch_mode(&self) -> (r: LatchMode)
        default_ensures
            r == LatchMode::NoLatch,
    {
        LatchMode::NoLatch
    }

    /// Which triggers of this chunk a loop keeps when several overlap; unless a chunk says
    /// otherwise, the most recent.
    fn schedule_mode(&self) -> (r: ScheduleMode)
        default_ensures
            r == ScheduleMode::MostRecent,
    {
        ScheduleMode::MostRecent
    }
}

/// A cell of the grid.
#[derive(Debug, Eq, PartialEq, Structural, Copy, Clone, Hash)]
pub struct Coords {
    pub row: u32,
    pub col: u32,
}

/// The id of the cell at a row and column of the eight-column grid.
pub open spec fn spec_id_from(row: u32, col: u32) -> int {
    row * 8 + col
}

impl Coords {
    pub fn new(row: u32, col: u32) -> (r: Coords)
        ensures
            r == (Coords { row, col }),
    {
        Coords { row, col }
    }

    /// The cell with the given id.
    pub fn from(id: u32) -> (r: Coords)
        ensures
            r.row == id / 8,
            r.col == id % 8,
    {
        Coords { row: id / 8, col: id % 8 }
    }

    /// The id of the cell at a row and column.
    pub fn id_from(row: u32, col: u32) -> (r: u32)
        requires
            spec_id_from(row, col) <= u32::MAX,
        ensures
            r == spec_id_from(row, col),
    {
        (row * 8) + col
    }
}

/// Cells and ids name the same grid positions.
pub proof fn law_coords_round_trip(id: u32, row: u32, col: u32)
    requires
        col < 8,
        spec_id_from(row, col) <= u32::MAX,
    ensures
        spec_id_from(id / 8, id % 8) == id,
        (spec_id_from(row, col) as u32) / 8 == row,
        (spec_id_from(row, col) as u32) % 8 == col,
{
}

/// The size of a block of cells.
#[derive(Debug, Eq, PartialEq, Structural, Copy, Clone)]
pub struct Shape {
    pub rows: u32,
    pub cols: u32,
}

impl Shape {
    pub fn new(rows: u32, cols: u32) -> (r: Shape)
        ensures
            r == (Shape { rows, cols }),
    {
        Shape { rows, cols }
    }
}

/// Where a grid cell goes: a chunk and the trigger within it.
#[derive(Debug, Eq, PartialEq, Structural, Copy, Clone, Hash)]
pub struct MidiMap {
    pub chunk_index: usize,
    pub id: u32,
}

/// A chunk placed on the grid.
pub struct ChunkMap {
    pub coords: Coords,
    pub shape: Shape,
    pub chunk: Box<dyn Triggerable>,
    pub channel: Option<u32>,
    pub color: u8,
    pub repeat_mode: RepeatMode,
}

impl ChunkMap {
    pub fn new(
        chunk: Box<dyn Triggerable>,
        coords: Coords,
        shape: Shape,
        color: u8,
        channel: Option<u32>,
        repeat_mode: RepeatMode,
    ) -> (r: Box<ChunkMap>)
        ensures
            r.coords == coords,
            r.shape == shape,
            r.color == color,
            r.channel == channel,
            r.repeat_mode == repeat_mode,
    {
        Box::new(ChunkMap { chunk, coords, shape, color, channel, repeat_mode })
    }
}

/// A change of what the grid's triggers do.
#[derive(Debug, Eq, PartialEq, Structural, Copy, Clone)]
pub enum TriggerModeChange {
    Selected(u32, bool),
    SelectingScale(bool),
    Active(u32, bool),
}

/// How a chunk follows the global repeat: fully, not at all, only its quantisation, or
/// without cycling.
#[derive(Debug, Eq, PartialEq, Structural, Copy, Clone)]
pub enum RepeatMode {
    Global,
    NoRepeat,
    OnlyQuant,
    NoCycle,
}

/// How held triggers latch.
#[derive(Debug, Eq, PartialEq, Structural, Copy, Clone, Hash)]
pub enum LatchMode {
    NoLatch,
    LatchSingle,
    NoSuppress,
}

/// Which triggers a loop keeps when several overlap.
#[derive(Debug, Eq, PartialEq, Structural, Copy, Clone, Hash)]
pub enum ScheduleMode {
    MostRecent,
    Monophonic,
    Percussion,
}

} // verus!
