use vstd::prelude::*;


pub mod blackbox_drums;
pub mod blackbox_sample;
pub mod blackbox_slicer;
pub mod blofeld_drums;
pub mod cc_slicer;
pub mod choke_switch;
pub mod cc_triggers;
pub mod held_stack;
pub mod k_board;
pub mod keyboard;
pub mod midi_keys;
pub mod midi_slicer;
pub mod mono_midi_keys;
pub mod multi;
pub mod sp404;
pub mod sp404_offset;
pub mod sp404mk2;
pub mod tr08;
pub mod umi3;
pub mod velocity_map;
pub mod vt3;
pub mod vt4;
pub mod volca_keys;
pub mod volca_sample;





pub mod note_book;
pub mod offset;
pub mod pitch_offset_chunk;
pub mod root_offset_chunk;
pub mod root_select;
pub mod scale_offset_chunk;
pub mod scale_select;










verus! {

/// A MIDI message that a device hands out to be sent.
#[derive(Debug, Copy, Clone, PartialEq, Eq, Structural)]
pub enum MidiMessage {
    Three(u8, u8, u8),
    Two(u8, u8),
}

/// The status byte of a channel message: the message kind plus the (1-based) channel.
pub open spec fn status(kind: int, channel: int) -> int {
    kind + channel - 1
}

/// A channel for which a message of the given kind has a status byte (channel 0 gives
/// the byte just below the kind, as the arithmetic does).
pub open spec fn channel_fits(kind: int, channel: int) -> bool {
    kind + channel - 1 <= 255
}

/// Status byte of a note-on on a channel.
pub fn note_on_status(channel: u8) -> (r: u8)
    requires
        channel_fits(144, channel as int),
    ensures
        r == status(144, channel as int),
{
    144 - 1 + channel
}

/// Status byte of a note-off on a channel.
pub fn note_off_status(channel: u8) -> (r: u8)
    requires
        channel_fits(128, channel as int),
    ensures
        r == status(128, channel as int),
{
    128 - 1 + channel
}

/// Status byte of a control change on a channel.
pub fn cc_status(channel: u8) -> (r: u8)
    requires
        channel_fits(176, channel as int),
    ensures
        r == status(176, channel as int),
{
    176 - 1 + channel
}

/// Index into a velocity map of `len` entries (more than two) for a velocity strictly between
/// 0 and 127: the velocity's place in 1..126 scaled onto the inner entries and rounded to the
/// nearest (halves up).
pub open spec fn velocity_map_index(len: int, velocity: int) -> int {
    (2 * (velocity - 1) * (len - 2) + 126) / 252 + 1
}

/// A velocity passed through an optional velocity map: 0 and 127 go to the first and
/// last entries, a map of one or two entries splits at 64, a longer map spreads the
/// velocities over its inner entries; with no map (or an empty one) the velocity is kept.
pub open spec fn spec_map_velocity(velocity_map: Option<Seq<u8>>, velocity: u8) -> u8 {
    match velocity_map {
        Some(m) => if m.len() == 0 {
            velocity
        } else if velocity == 0 {
            m[0]
        } else if velocity == 127 {
            m.last()
        } else if m.len() <= 2 {
            if velocity < 64 {
                m[0]
            } else {
                m.last()
            }
        } else {
            m[velocity_map_index(m.len() as int, velocity as int)]
        },
        None => velocity,
    }
}

/// The velocities for which a map has an entry to give: any velocity with no map or a map of
/// at most two entries, and otherwise velocities whose scaled index stays inside the map
/// (all MIDI velocities, 0 to 127, do).
pub open spec fn velocity_map_defined(velocity_map: Option<Seq<u8>>, velocity: u8) -> bool {
    match velocity_map {
        Some(m) => (m.len() > 2 && velocity != 0 && velocity != 127)
            ==> velocity_map_index(m.len() as int, velocity as int) < m.len(),
        None => true,
    }
}

/// The view of an optional velocity map.
pub open spec fn map_view(velocity_map: &Option<Vec<u8>>) -> Option<Seq<u8>> {
    match velocity_map {
        Some(v) => Some(v@),
        None => None,
    }
}

/// Passes a velocity through an optional velocity map.
pub fn map_velocity(velocity_map: &Option<Vec<u8>>, velocity: u8) -> (r: u8)
    requires
        velocity_map_defined(map_view(velocity_map), velocity),
    ensures
        r == spec_map_velocity(map_view(velocity_map), velocity),
{
    if let Some(velocity_map) = velocity_map {
        if velocity_map.len() > 0 {
            let n = velocity_map.len();
            return if velocity == 0 {
                velocity_map[0]
            } else if velocity == 127 {
                velocity_map[n - 1]
            } else if n <= 2 {
                if velocity < 64 {
                    velocity_map[0]
                } else {
                    velocity_map[n - 1]
                }
            } else {
                let inner = (n - 2) as u128;
                assert(inner <= 0xffff_ffff_ffff_ffff);
                assert(2 * (velocity as u128 - 1) * inner + 126 <= 510 * 0xffff_ffff_ffff_ffffu128 + 126) by (nonlinear_arith)
                    requires inner <= 0xffff_ffff_ffff_ffff, 1 <= velocity <= 255;
                let index = (2 * (velocity as u128 - 1) * inner + 126) / 252;
                proof {
                    assert(index as int == velocity_map_index(n as int, velocity as int) - 1);
                }
                velocity_map[(index as usize) + 1]
            };
        }
    }
    velocity
}

/// Every MIDI velocity (0 to 127) has an entry in any map.
pub proof fn lemma_midi_velocities_defined(m: Seq<u8>, velocity: u8)
    requires
        velocity <= 127,
    ensures
        velocity_map_defined(Some(m), velocity),
{
    if m.len() > 2 && velocity != 0 && velocity != 127 {
        let i = m.len() - 2;
        let v = velocity as int;
        assert(2 * (v - 1) * i + 126 < 252 * (i + 1)) by (nonlinear_arith)
            requires 1 <= v <= 126, i >= 1;
        assert((2 * (v - 1) * i + 126) / 252 <= i) by (nonlinear_arith)
            requires 2 * (v - 1) * i + 126 < 252 * (i + 1), i >= 1;
    }
}

} // verus!
