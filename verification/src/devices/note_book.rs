use vstd::prelude::*;

use super::{channel_fits, status, MidiMessage};
use std::collections::HashMap;

verus! {

/// The notes a device holds down, per trigger (channel, note, velocity), and the messages
/// it has produced but not yet handed out.
pub struct NoteBook {
    held: HashMap<u32, (u8, u8, u8)>,
    outbox: Vec<MidiMessage>,
}

impl NoteBook {
    pub closed spec fn held(&self) -> Map<u32, (u8, u8, u8)> {
        self.held@
    }

    pub closed spec fn sent(&self) -> Seq<MidiMessage> {
        self.outbox@
    }

    /// Every held note is on a channel that note messages can address.
    pub open spec fn well_formed(&self) -> bool {
        forall|id: u32| #[trigger] self.held().contains_key(id) ==> channel_fits(144, self.held()[id].0 as int)
    }

    pub fn new() -> (r: NoteBook)
        ensures
            r.held() == Map::<u32, (u8, u8, u8)>::empty(),
            r.sent() == Seq::<MidiMessage>::empty(),
            r.well_formed(),
    {
        NoteBook { held: HashMap::new(), outbox: Vec::new() }
    }

    /// Whether a trigger holds a note.
    pub fn holds(&self, id: u32) -> (r: bool)
        ensures
            r == self.held().contains_key(id),
    {
        broadcast use vstd::std_specs::hash::group_hash_axioms;
        self.held.contains_key(&id)
    }

    /// Queues a message.
    pub fn send(&mut self, message: MidiMessage)
        ensures
            final(self).sent() == old(self).sent().push(message),
            final(self).held() == old(self).held(),
    {
        self.outbox.push(message);
    }

    /// Sends a note-on (status `144 - 1 + channel`) and remembers it for the trigger.
    pub fn press(&mut self, id: u32, channel: u8, note: u8, velocity: u8)
        requires
            old(self).well_formed(),
            channel_fits(144, channel as int),
        ensures
            final(self).well_formed(),
            final(self).sent() == old(self).sent().push(MidiMessage::Three((144 - 1 + channel) as u8, note, velocity)),
            final(self).held() == old(self).held().insert(id, (channel, note, velocity)),
    {
        broadcast use vstd::std_specs::hash::group_hash_axioms;
        self.outbox.push(MidiMessage::Three(144 - 1 + channel, note, velocity));
        self.held.insert(id, (channel, note, velocity));
        proof {
            assert forall|k: u32| #[trigger] self.held().contains_key(k) implies channel_fits(144, self.held()[k].0 as int) by {
                if k != id {
                    assert(old(self).held().contains_key(k));
                }
            }
        }
    }

    /// Remembers a note for the trigger without sending anything.
    pub fn remember(&mut self, id: u32, channel: u8, note: u8, velocity: u8)
        requires
            old(self).well_formed(),
            channel_fits(144, channel as int),
        ensures
            final(self).well_formed(),
            final(self).sent() == old(self).sent(),
            final(self).held() == old(self).held().insert(id, (channel, note, velocity)),
    {
        broadcast use vstd::std_specs::hash::group_hash_axioms;
        self.held.insert(id, (channel, note, velocity));
        proof {
            assert forall|k: u32| #[trigger] self.held().contains_key(k) implies channel_fits(144, self.held()[k].0 as int) by {
                if k != id {
                    assert(old(self).held().contains_key(k));
                }
            }
        }
    }

    /// If the trigger holds a note, sends its release (a message of kind `kind`, 128 for
    /// note-off or 144 for a zero-velocity note-on, on the note's channel) and forgets it;
    /// returns whether it did.
    pub fn release(&mut self, id: u32, kind: u8) -> (r: bool)
        requires
            old(self).well_formed(),
            kind == 128 || kind == 144,
        ensures
            final(self).well_formed(),
            r == old(self).held().contains_key(id),
            r ==> final(self).sent() == old(self).sent().push(MidiMessage::Three(
                status(kind as int, old(self).held()[id].0 as int) as u8,
                old(self).held()[id].1,
                0,
            )),
            r ==> final(self).held() == old(self).held().remove(id),
            !r ==> final(self).sent() == old(self).sent() && final(self).held() == old(self).held(),
    {
        broadcast use vstd::std_specs::hash::group_hash_axioms;
        if self.held.contains_key(&id) {
            let (channel, note_id, _) = *self.held.get(&id).unwrap();
            self.outbox.push(MidiMessage::Three(kind - 1 + channel, note_id, 0));
            self.held.remove(&id);
            true
        } else {
            false
        }
    }

    /// Hands out the queued messages, oldest first.
    pub fn take_messages(&mut self) -> (r: Vec<MidiMessage>)
        ensures
            r@ == old(self).sent(),
            final(self).sent() == Seq::<MidiMessage>::empty(),
            final(self).held() == old(self).held(),
    {
        let mut out = Vec::new();
        std::mem::swap(&mut out, &mut self.outbox);
        out
    }
}

} // verus!
