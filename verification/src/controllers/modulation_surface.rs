use vstd::prelude::*;

verus! {

/// The turn a relative encoder reports: its value less 64 (a clockwise turn above 64,
/// counter-clockwise below), at most 63 either way; 64 reports no turn.
pub open spec fn encoder_delta(value: int) -> Option<int> {
    let delta = value - 64;
    if delta == 0 {
        None
    } else if delta > 63 {
        Some(63)
    } else if delta < -63 {
        Some(-63)
    } else {
        Some(delta)
    }
}

/// The turn a relative encoder reports.
pub fn decode_relative_encoder_delta(value: u8) -> (r: Option<i8>)
    ensures
        match encoder_delta(value as int) {
            Some(d) => r == Some(d as i8),
            None => r is None,
        },
{
    let delta = value as i16 - 64;
    if delta == 0 {
        None
    } else {
        let clamped = if delta > 63 { 63 } else if delta < -63 { -63 } else { delta };
        Some(clamped as i8)
    }
}

/// The LFO speed names, slowest first.
pub open spec fn speed_label(index: int) -> Seq<char> {
    if index == 0 { "3B"@ }
    else if index == 1 { "2B"@ }
    else if index == 2 { "3/2"@ }
    else if index == 3 { "1B"@ }
    else if index == 4 { "1T"@ }
    else if index == 5 { "2"@ }
    else if index == 6 { "2T"@ }
    else if index == 7 { "4"@ }
    else if index == 8 { "4T"@ }
    else { "8"@ }
}

/// The LFO speed name shown for a controller value: the ten speeds share 0..127 equally.
pub fn lfo_speed_overlay_value(value: u8) -> (r: String)
    ensures
        r@ == speed_label(value as int * 10 / 128),
{
    let index = value as usize * 10 / 128;
    let label = if index == 0 {
        "3B"
    } else if index == 1 {
        "2B"
    } else if index == 2 {
        "3/2"
    } else if index == 3 {
        "1B"
    } else if index == 4 {
        "1T"
    } else if index == 5 {
        "2"
    } else if index == 6 {
        "2T"
    } else if index == 7 {
        "4"
    } else if index == 8 {
        "4T"
    } else {
        "8"
    };
    String::from_str(label)
}

/// The LFO wave shown for a controller value: five shapes over 0..127 in fifths.
pub open spec fn wave_name(value: int) -> Seq<char> {
    if value * 5 < 127 { "TRI"@ }
    else if value * 5 < 254 { "UP"@ }
    else if value * 5 < 381 { "HUP"@ }
    else if value * 5 < 508 { "HDN"@ }
    else { "DWN"@ }
}

/// The LFO wave shown for a controller value.
pub fn lfo_wave_overlay_mode(value: u8) -> (r: &'static str)
    ensures
        r@ == wave_name(value as int),
{
    let v = value as u32 * 5;
    if v < 127 {
        "TRI"
    } else if v < 254 {
        "UP"
    } else if v < 381 {
        "HUP"
    } else if v < 508 {
        "HDN"
    } else {
        "DWN"
    }
}

/// Division rounded toward zero, as Rust's `/` on integers.
pub open spec fn trunc_div(a: int, b: int) -> int {
    if a >= 0 { a / b } else { -((-a) / b) }
}

/// The root note a controller value selects: middle C moved by up to an octave either way
/// (the offset from 64 scaled by 12/63, rounded toward zero).
pub fn root_note_from_value(value: u8) -> (r: i32)
    ensures
        r == 60 + trunc_div((value as int - 64) * 12, 63),
{
    let n = (value as i32 - 64) * 12;
    let q = if n >= 0 { n / 63 } else { -((-n) / 63) };
    60 + q
}

/// The grid channel whose activity a sample lane shows.
pub open spec fn activity_channel(index: int) -> int {
    if index == 0 { 2 }
    else if index == 1 { 3 }
    else if index == 2 { 10 }
    else if index == 3 { 11 }
    else if index == 4 { 12 }
    else if index == 5 { 13 }
    else if index == 6 { 14 }
    else { 15 }
}

/// The grid channel whose activity a sample lane shows.
pub fn sample_activity_channel(index: u8) -> (r: u32)
    ensures
        r == activity_channel(index as int),
{
    match index {
        0 => 2,
        1 => 3,
        2 => 10,
        3 => 11,
        4 => 12,
        5 => 13,
        6 => 14,
        _ => 15,
    }
}

} // verus!
