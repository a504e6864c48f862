use vstd::prelude::*;

verus! {

/// Whether a status byte is a channel-voice message on the first channel: note off, note
/// on, key pressure, control change, program change, channel pressure or pitch bend.
pub open spec fn first_channel_voice(status: u8) -> bool {
    status == 128 || status == 144 || status == 160 || status == 176 || status == 192 || status == 208 || status == 224
}

/// A keyboard passed through to another channel of the main output.
pub struct Keyboard {
    output_port: u8,
}

impl Keyboard {
    /// The channel (1 to 16) the keyboard is moved to.
    pub closed spec fn channel(&self) -> u8 {
        self.output_port
    }

    /// A keyboard whose first-channel messages go out on `output_port` (1 to 16).
    pub fn new(output_port: u8) -> (r: Keyboard)
        requires
            1 <= output_port <= 16,
        ensures
            r.channel() == output_port,
    {
        Keyboard { output_port }
    }

    /// What to send for a message from the keyboard: first-channel voice messages moved
    /// to the keyboard's channel; nothing for anything else.
    pub fn reroute(&self, message: &[u8]) -> (r: Option<Vec<u8>>)
        requires
            message@.len() >= 1,
            1 <= self.channel() <= 16,
        ensures
            first_channel_voice(message@[0]) ==> (r matches Some(v)
                && v@ == message@.update(0, (message@[0] + self.channel() - 1) as u8)),
            !first_channel_voice(message@[0]) ==> r is None,
    {
        let status = message[0];
        if status == 128 || status == 144 || status == 160 || status == 176 || status == 192 || status == 208
            || status == 224 {
            let mut msg: Vec<u8> = Vec::new();
            let mut i: usize = 0;
            while i < message.len()
                invariant
                    i <= message@.len(),
                    msg@ == message@.subrange(0, i as int),
                decreases message@.len() - i,
            {
                msg.push(message[i]);
                i += 1;
            }
            let moved = msg[0] + (self.output_port - 1);
            msg.set(0, moved);
            proof {
                assert(msg@ =~= message@.update(0, (message@[0] + self.channel() - 1) as u8));
            }
            Some(msg)
        } else {
            None
        }
    }
}

} // verus!
