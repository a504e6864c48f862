use vstd::prelude::*;

use crate::devices::vt4::{robot_key, robot_key_for};
use crate::devices::MidiMessage;

verus! {

/// Keeps the vocal transformer's key on the scale's mode: sends the key whenever it
/// changes.
pub struct VT4Key {
    channel: u8,
    last_key: Option<u8>,
    outbox: Vec<MidiMessage>,
}

impl VT4Key {
    /// The channel the key is sent on.
    pub closed spec fn key_channel(&self) -> u8 {
        self.channel
    }

    /// The key last sent.
    pub closed spec fn last(&self) -> Option<u8> {
        self.last_key
    }

    /// The messages to send, oldest first.
    pub closed spec fn messages(&self) -> Seq<MidiMessage> {
        self.outbox@
    }

    /// A key follower on `channel` (at most 80, so that its control-change status fits a
    /// byte) that has sent nothing.
    pub fn new(channel: u8) -> (r: VT4Key)
        requires
            channel <= 80,
        ensures
            r.key_channel() == channel,
            r.last() is None,
            r.messages() == Seq::<MidiMessage>::empty(),
    {
        VT4Key { channel, last_key: None, outbox: Vec::new() }
    }

    /// Follows the scale (root note and mode): sends the key on controller 48 when it
    /// differs from the last one sent.
    pub fn schedule(&mut self, root: i32, scale: i32)
        requires
            old(self).key_channel() <= 80,
            root >= i32::MIN + 60,
        ensures
            final(self).key_channel() == old(self).key_channel(),
            ({
                let key = robot_key(root as int, scale as int) as u8;
                &&& final(self).last() == Some(key)
                &&& final(self).messages() == if old(self).last() == Some(key) {
                    old(self).messages()
                } else {
                    old(self).messages().push(MidiMessage::Three((175 + old(self).key_channel()) as u8, 48, key))
                }
            }),
    {
        let key = robot_key_for(root, scale);
        if self.last_key != Some(key) {
            self.outbox.push(MidiMessage::Three(176 - 1 + self.channel, 48, key));
            self.last_key = Some(key);
        }
    }

    /// Hands out the messages to send, oldest first.
    pub fn take_messages(&mut self) -> (r: Vec<MidiMessage>)
        ensures
            r@ == old(self).messages(),
            final(self).messages() == Seq::<MidiMessage>::empty(),
            final(self).key_channel() == old(self).key_channel(),
            final(self).last() == old(self).last(),
    {
        let mut taken: Vec<MidiMessage> = Vec::new();
        std::mem::swap(&mut taken, &mut self.outbox);
        taken
    }
}

} // verus!
