use vstd::prelude::*;

use crate::controllers::Schedulable;
use crate::midi_time::MidiTime;

verus! {

/// The pad controller's programmer mode (mode, page).
pub open spec fn programmer_mode() -> (u8, u8) {
    (17, 0)
}

/// The pad controller's tempo mode.
pub open spec fn tempo_mode() -> (u8, u8) {
    (15, 0)
}

/// The pad controller's settings mode.
pub open spec fn settings_mode() -> (u8, u8) {
    (18, 0)
}

/// The message that switches the pad controller to a mode, or reports it.
pub open spec fn mode_message(mode: (u8, u8)) -> Seq<u8> {
    seq![240u8, 0, 32, 41, 2, 14, 0, mode.0, mode.1, 0, 247]
}

/// The mode a message of the pad controller reports, if it reports one.
pub open spec fn reported_mode(message: Seq<u8>) -> Option<(u8, u8)> {
    if message.len() == 11 && message == mode_message((message[7], message[8])) {
        Some((message[7], message[8]))
    } else {
        None
    }
}

/// The mode a message of the pad controller reports, if it reports one.
pub fn get_mode(message: &[u8]) -> (r: Option<(u8, u8)>)
    ensures
        r == reported_mode(message@),
{
    if message.len() == 11 && message[0] == 240 && message[1] == 0 && message[2] == 32 && message[3] == 41
        && message[4] == 2 && message[5] == 14 && message[6] == 0 && message[9] == 0 && message[10] == 247 {
        proof {
            assert(message@ =~= mode_message((message@[7], message@[8])));
        }
        Some((message[7], message[8]))
    } else {
        proof {
            if message@.len() == 11 && message@ == mode_message((message@[7], message@[8])) {
                assert(message@[0] == 240);
            }
        }
        None
    }
}

/// The message that switches the pad controller to a mode.
pub fn get_mode_message(mode: (u8, u8)) -> (r: Vec<u8>)
    ensures
        r@ == mode_message(mode),
{
    let v = vec![240, 0, 32, 41, 2, 14, 0, mode.0, mode.1, 0, 247];
    assert(v@ =~= mode_message(mode));
    v
}

/// Makes the pad controller's settings button open its tempo mode: pressing settings in
/// programmer mode reports programmer mode twice, which switches to tempo mode; leaving
/// settings switches back to programmer mode.
pub struct LaunchpadTempo {
    last_mode: Option<(u8, u8)>,
}

impl LaunchpadTempo {
    /// The mode the controller last reported (none after a message that reports none).
    pub closed spec fn last(&self) -> Option<(u8, u8)> {
        self.last_mode
    }

    /// A watcher that has seen no mode.
    pub fn new() -> (r: LaunchpadTempo)
        ensures
            r.last() is None,
    {
        LaunchpadTempo { last_mode: None }
    }

    /// Reads a message of the controller; answers the mode switches to send.
    pub fn handle_message(&mut self, message: &[u8]) -> (r: Vec<Vec<u8>>)
        ensures
            final(self).last() == reported_mode(message@),
            ({
                let new_mode = reported_mode(message@);
                let last = old(self).last();
                let first = if new_mode == Some(programmer_mode()) && last == Some(programmer_mode()) {
                    seq![mode_message(tempo_mode())]
                } else {
                    Seq::empty()
                };
                let all = if new_mode is Some && last == Some(settings_mode()) {
                    first.push(mode_message(programmer_mode()))
                } else {
                    first
                };
                r@.map_values(|m: Vec<u8>| m@) == all
            }),
    {
        let new_mode = get_mode(message);
        let mut out: Vec<Vec<u8>> = Vec::new();
        if let Some(mode) = new_mode {
            if mode.0 == 17 && mode.1 == 0 && self.last_mode == Some((17u8, 0u8)) {
                out.push(get_mode_message((15, 0)));
            }
            if self.last_mode == Some((18u8, 0u8)) {
                out.push(get_mode_message((17, 0)));
            }
        }
        self.last_mode = new_mode;
        proof {
            let new_mode = reported_mode(message@);
            let last = old(self).last();
            let first = if new_mode == Some(programmer_mode()) && last == Some(programmer_mode()) {
                seq![mode_message(tempo_mode())]
            } else {
                Seq::empty()
            };
            let all = if new_mode is Some && last == Some(settings_mode()) {
                first.push(mode_message(programmer_mode()))
            } else {
                first
            };
            assert(out@.map_values(|m: Vec<u8>| m@) =~= all);
        }
        out
    }
}

impl Schedulable for LaunchpadTempo {
}

} // verus!
