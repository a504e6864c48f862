use vstd::prelude::*;

use crate::loop_event::{lemma_sorted_is_pos_sorted, lower_index, sorted_events, upper_bound, upper_index, LoopEvent};
use crate::midi_time::MidiTime;
use std::collections::HashMap;

verus! {

/// Every event ever recorded, kept per trigger in event order.
pub struct LoopRecorder {
    per_id: HashMap<u32, Vec<LoopEvent>>,
}

impl LoopRecorder {
    /// The recorded events of one trigger, in order.
    pub closed spec fn events(&self, id: u32) -> Seq<LoopEvent> {
        if self.per_id@.contains_key(id) {
            self.per_id@[id]@
        } else {
            Seq::empty()
        }
    }

    /// Whether anything was ever recorded for the trigger.
    pub closed spec fn has_recorded(&self, id: u32) -> bool {
        self.per_id@.contains_key(id)
    }

    /// Each trigger's events are in event order and belong to that trigger.
    pub closed spec fn well_formed(&self) -> bool {
        forall|id: u32| #[trigger] self.per_id@.contains_key(id) ==> {
            &&& sorted_events(self.per_id@[id]@)
            &&& forall|i: int| 0 <= i < self.per_id@[id]@.len() ==> (#[trigger] self.per_id@[id]@[i]).id == id
        }
    }

    /// What a well-formed recorder's event lists look like.
    pub proof fn lemma_events(&self, id: u32)
        requires
            self.well_formed(),
        ensures
            sorted_events(self.events(id)),
            forall|i: int| 0 <= i < self.events(id).len() ==> (#[trigger] self.events(id)[i]).id == id,
    {
    }

    /// A trigger that never recorded anything has no events.
    pub proof fn lemma_unrecorded(&self, id: u32)
        ensures
            !self.has_recorded(id) ==> self.events(id) == Seq::<LoopEvent>::empty(),
    {
    }

    /// A recorder with nothing recorded.
    pub fn new() -> (r: LoopRecorder)
        ensures
            r.well_formed(),
            forall|id: u32| #[trigger] r.events(id) == Seq::<LoopEvent>::empty() && !r.has_recorded(id),
    {
        LoopRecorder { per_id: HashMap::new() }
    }

    /// Records an event in its trigger's list.
    pub fn add(&mut self, event: LoopEvent)
        requires
            old(self).well_formed(),
        ensures
            final(self).well_formed(),
            final(self).events(event.id).to_set() == old(self).events(event.id).to_set().insert(event),
            old(self).events(event.id).contains(event) ==> final(self).events(event.id) == old(self).events(event.id),
            final(self).has_recorded(event.id),
            forall|id: u32| id != event.id ==> #[trigger] final(self).events(id) == old(self).events(id)
                && final(self).has_recorded(id) == old(self).has_recorded(id),
    {
        broadcast use vstd::std_specs::hash::group_hash_axioms;
        let mut collection = match self.per_id.remove(&event.id) {
            Some(v) => v,
            None => Vec::new(),
        };
        proof {
            assert(collection@ == old(self).events(event.id));
        }
        event.insert_into(&mut collection);
        let ghost inserted = collection@;
        self.per_id.insert(event.id, collection);
        proof {
            assert(self.per_id@[event.id]@ == inserted);
            assert forall|i: int| 0 <= i < inserted.len() implies (#[trigger] inserted[i]).id == event.id by {
                assert(inserted.to_set().contains(inserted[i]));
                if inserted[i] != event {
                    let old_s = old(self).events(event.id);
                    assert(old_s.to_set().contains(inserted[i]));
                    let k = choose|k: int| 0 <= k < old_s.len() && old_s[k] == inserted[i];
                }
            }
            assert forall|id: u32| #[trigger] self.per_id@.contains_key(id) implies {
                &&& sorted_events(self.per_id@[id]@)
                &&& forall|i: int| 0 <= i < self.per_id@[id]@.len() ==> (#[trigger] self.per_id@[id]@[i]).id == id
            } by {
                if id != event.id {
                    assert(old(self).per_id@.contains_key(id));
                }
            }
            assert forall|id: u32| id != event.id implies #[trigger] self.events(id) == old(self).events(id)
                && self.has_recorded(id) == old(self).has_recorded(id) by {
                if self.per_id@.contains_key(id) {
                    assert(old(self).per_id@.contains_key(id));
                }
                if old(self).per_id@.contains_key(id) {
                    assert(self.per_id@.contains_key(id));
                }
            }
        }
    }

    /// The events of a trigger in `[start_pos, end_pos)`, if it has ever recorded any.
    pub fn get_range_for(&self, id: u32, start_pos: MidiTime, end_pos: MidiTime) -> (r: Option<&[LoopEvent]>)
        requires
            self.well_formed(),
        ensures
            match r {
                Some(s) => {
                    let a = lower_index(self.events(id), start_pos@);
                    let b = lower_index(self.events(id), end_pos@);
                    &&& self.has_recorded(id)
                    &&& s@ == self.events(id).subrange(a, if a > b { a } else { b })
                    &&& forall|e: LoopEvent| s@.contains(e) <==> (self.events(id).contains(e) && start_pos@ <= e.pos@ < end_pos@)
                },
                None => !self.has_recorded(id),
            },
    {
        broadcast use vstd::std_specs::hash::group_hash_axioms;
        match self.per_id.get(&id) {
            Some(collection) => {
                proof {
                    lemma_sorted_is_pos_sorted(collection@);
                }
                Some(LoopEvent::range(collection.as_slice(), start_pos, end_pos))
            },
            None => None,
        }
    }

    /// Whether a trigger has an event in `[start_pos, end_pos)`.
    pub fn has_events(&self, id: u32, start_pos: MidiTime, end_pos: MidiTime) -> (r: bool)
        requires
            self.well_formed(),
        ensures
            r == exists|e: LoopEvent| #[trigger] self.events(id).contains(e) && start_pos@ <= e.pos@ < end_pos@,
    {
        match self.get_range_for(id, start_pos, end_pos) {
            Some(events) => {
                proof {
                    if events@.len() > 0 {
                        assert(events@.contains(events@[0]));
                    }
                    if exists|e: LoopEvent| #[trigger] self.events(id).contains(e) && start_pos@ <= e.pos@ < end_pos@ {
                        let e = choose|e: LoopEvent| #[trigger] self.events(id).contains(e) && start_pos@ <= e.pos@ < end_pos@;
                        assert(events@.contains(e));
                    }
                }
                events.len() > 0
            },
            None => {
                proof {
                    self.lemma_unrecorded(id);
                }
                false
            },
        }
    }

    /// The event of a trigger in effect at `pos`: the one at the latest position not after it.
    pub fn get_event_at(&self, id: u32, pos: MidiTime) -> (r: Option<&LoopEvent>)
        requires
            self.well_formed(),
        ensures
            ({
                let k = upper_index(self.events(id), pos@);
                match r {
                    Some(e) => 0 < k <= self.events(id).len() && *e == self.events(id)[k - 1],
                    None => k == 0,
                }
            }),
            match r {
                Some(e) => self.events(id).contains(*e) && e.pos@ <= pos@
                    && forall|i: int| 0 <= i < self.events(id).len() && (#[trigger] self.events(id)[i]).pos@ <= pos@
                        ==> self.events(id)[i].pos@ <= e.pos@,
                None => forall|i: int| 0 <= i < self.events(id).len() ==> (#[trigger] self.events(id)[i]).pos@ > pos@,
            },
    {
        broadcast use vstd::std_specs::hash::group_hash_axioms;
        match self.per_id.get(&id) {
            Some(collection) => {
                proof {
                    lemma_sorted_is_pos_sorted(collection@);
                }
                LoopEvent::at(collection.as_slice(), pos)
            },
            None => None,
        }
    }

    /// The first event of a trigger that lies after `pos`.
    pub fn get_next_event_at(&self, id: u32, pos: MidiTime) -> (r: Option<&LoopEvent>)
        requires
            self.well_formed(),
        ensures
            ({
                let k = upper_index(self.events(id), pos@);
                match r {
                    Some(e) => 0 <= k < self.events(id).len() && *e == self.events(id)[k],
                    None => k == self.events(id).len(),
                }
            }),
            match r {
                Some(e) => e.pos@ > pos@ && self.events(id).contains(*e)
                    && forall|i: int| 0 <= i < self.events(id).len() && (#[trigger] self.events(id)[i]).pos@ > pos@
                        ==> e.pos@ <= self.events(id)[i].pos@,
                None => forall|i: int| 0 <= i < self.events(id).len() ==> (#[trigger] self.events(id)[i]).pos@ <= pos@,
            },
    {
        broadcast use vstd::std_specs::hash::group_hash_axioms;
        match self.per_id.get(&id) {
            Some(collection) => {
                proof {
                    lemma_sorted_is_pos_sorted(collection@);
                }
                let index = upper_bound(collection.as_slice(), pos);
                if index < collection.len() {
                    proof {
                        assert(crate::loop_event::pos_sorted(collection@));
                        assert forall|i: int| 0 <= i < collection@.len() && (#[trigger] collection@[i]).pos@ > pos@
                            implies collection@[index as int].pos@ <= collection@[i].pos@ by {
                            if i < index {
                            }
                        }
                    }
                    Some(&collection[index])
                } else {
                    None
                }
            },
            None => None,
        }
    }
}

} // verus!
