use vstd::prelude::*;

use crate::text::{decimal_digits, decimal_string, decimal_string_u64};
use std::time::{Duration, SystemTime};

verus! {

/// An event written to the log that runs beside a recording.
#[derive(Debug, Copy, Clone, PartialEq, Eq, Structural)]
pub enum AudioRecorderEvent {
    Tempo(usize),
    ChannelVolume(u32, u8),
    Tick,
}

/// A number written with at least `width` digits, zeros in front.
pub open spec fn padded_digits(n: nat, width: nat) -> Seq<char> {
    let d = decimal_digits(n);
    if d.len() < width {
        Seq::new((width - d.len()) as nat, |i: int| '0') + d
    } else {
        d
    }
}

/// The stamp that opens a log line: `[`, the seconds, a point and the microseconds in
/// six digits.
pub open spec fn stamp_text(secs: nat, micros: nat) -> Seq<char> {
    "["@ + decimal_digits(secs) + "."@ + padded_digits(micros, 6)
}

/// One line of the event log, stamped with the time since the recording started.
pub open spec fn event_line(secs: nat, micros: nat, event: AudioRecorderEvent) -> Seq<char> {
    stamp_text(secs, micros) + match event {
        AudioRecorderEvent::Tick => ", \"tick\"]\n"@,
        AudioRecorderEvent::Tempo(value) => ", \"tempo\", "@ + decimal_digits(value as nat) + "]\n"@,
        AudioRecorderEvent::ChannelVolume(channel, value) => ", \"channel_volume\", "@ + decimal_digits(
            channel as nat,
        ) + ", "@ + decimal_digits(value as nat) + "]\n"@,
    }
}

fn zero_padded(n: u32, width: usize) -> (r: String)
    ensures
        r@ == padded_digits(n as nat, width as nat),
{
    let digits = decimal_string(n);
    let len = digits.as_str().unicode_len();
    let mut r = String::new();
    let mut i = len;
    while i < width
        invariant
            len == decimal_digits(n as nat).len(),
            len <= i,
            i <= width || i == len,
            r@ =~= Seq::new((i - len) as nat, |k: int| '0'),
        decreases width - i,
    {
        proof {
            reveal_strlit("0");
        }
        r.append("0");
        i = i + 1;
    }
    r.append(digits.as_str());
    r
}

/// The log line for an event that came `secs` seconds and `micros` microseconds after
/// the recording started.
pub fn event_log_line(secs: u64, micros: u32, event: &AudioRecorderEvent) -> (r: String)
    ensures
        r@ == event_line(secs as nat, micros as nat, *event),
{
    let mut line = String::from_str("[");
    line.append(decimal_string_u64(secs).as_str());
    line.append(".");
    line.append(zero_padded(micros, 6).as_str());
    match event {
        AudioRecorderEvent::Tick => {
            line.append(", \"tick\"]\n");
        },
        AudioRecorderEvent::Tempo(value) => {
            line.append(", \"tempo\", ");
            line.append(decimal_string_u64(*value as u64).as_str());
            line.append("]\n");
        },
        AudioRecorderEvent::ChannelVolume(channel, value) => {
            line.append(", \"channel_volume\", ");
            line.append(decimal_string(*channel).as_str());
            line.append(", ");
            line.append(decimal_string(*value as u32).as_str());
            line.append("]\n");
        },
    }
    proof {
        assert(line@ =~= event_line(secs as nat, micros as nat, *event));
    }
    line
}

#[verifier::external_type_specification]
#[verifier::external_body]
pub struct ExSystemTime(std::time::SystemTime);

/// `SystemTime::now`: the clock's current time. It depends on the clock, so nothing is
/// claimed of it.
#[verifier::external_body]
fn current_time() -> (r: SystemTime) {
    SystemTime::now()
}

/// `SystemTime::elapsed`: the time since `at`, or none where the clock now reads earlier
/// than `at`. It depends on the clock, so nothing is claimed of it.
#[verifier::external_body]
fn time_since(at: &SystemTime) -> (r: Option<Duration>) {
    at.elapsed().ok()
}

/// When something was last played.
pub struct LastTrigger(pub Option<SystemTime>);

impl LastTrigger {
    /// Nothing played yet.
    pub fn new() -> (r: LastTrigger)
        ensures
            r.0 is None,
    {
        LastTrigger(None)
    }

    /// Something is played now.
    pub fn trigger(&mut self)
        ensures
            final(self).0 is Some,
    {
        self.0 = Some(current_time());
    }

    /// How long ago something was played; none before anything was (or where the clock
    /// went back since).
    pub fn since_trigger(&self) -> (r: Option<Duration>)
        ensures
            self.0 is None ==> r is None,
    {
        match &self.0 {
            Some(time) => time_since(time),
            None => None,
        }
    }
}

} // verus!
