use vstd::prelude::*;

use circular_queue::CircularQueue;
use std::collections::HashMap;

verus! {

/// The ring buffer of the `circular_queue` crate, opaque here.
#[verifier::external_type_specification]
#[verifier::external_body]
#[verifier::reject_recursive_types(T)]
pub struct ExCircularQueue<T>(CircularQueue<T>);

/// The trigger ids a queue holds, oldest first.
pub uninterp spec fn queue_contents(q: CircularQueue<u32>) -> Seq<u32>;

/// How many ids a queue keeps.
pub uninterp spec fn queue_capacity(q: CircularQueue<u32>) -> nat;

/// `CircularQueue::with_capacity`: an empty queue that keeps `capacity` items.
#[verifier::external_body]
fn queue_with_capacity(capacity: usize) -> (r: CircularQueue<u32>)
    ensures
        queue_contents(r) == Seq::<u32>::empty(),
        queue_capacity(r) == capacity,
{
    CircularQueue::with_capacity(capacity)
}

/// `CircularQueue::push`: the id becomes the newest item; a full queue drops its oldest
/// item; a queue of no capacity keeps nothing.
#[verifier::external_body]
fn queue_push(q: &mut CircularQueue<u32>, id: u32)
    ensures
        queue_capacity(*final(q)) == queue_capacity(*old(q)),
        queue_contents(*final(q)) == if queue_capacity(*old(q)) == 0 {
            queue_contents(*old(q))
        } else if queue_contents(*old(q)).len() < queue_capacity(*old(q)) {
            queue_contents(*old(q)).push(id)
        } else {
            queue_contents(*old(q)).drop_first().push(id)
        },
{
    q.push(id);
}

/// `CircularQueue::iter`: the items, newest first.
#[verifier::external_body]
fn queue_newest_first(q: &CircularQueue<u32>) -> (r: Vec<u32>)
    ensures
        r@ == queue_contents(*q).reverse(),
{
    q.iter().cloned().collect()
}

/// How many of the items are `id`.
pub open spec fn occurrences(s: Seq<u32>, id: u32) -> nat
    decreases s.len(),
{
    if s.len() == 0 {
        0
    } else {
        occurrences(s.drop_last(), id) + if s.last() == id { 1nat } else { 0nat }
    }
}

/// How many recent triggers a chunk remembers.
pub const HISTORY_LENGTH: usize = 8;

/// The triggers each chunk played most recently, for ranking percussion triggers by how
/// often they were played.
pub struct TriggerHistory {
    last_triggered: HashMap<usize, CircularQueue<u32>>,
}

impl TriggerHistory {
    /// The ids a chunk played recently, oldest first.
    pub closed spec fn recent(&self, chunk_index: usize) -> Seq<u32> {
        if self.last_triggered@.contains_key(chunk_index) {
            queue_contents(self.last_triggered@[chunk_index])
        } else {
            Seq::empty()
        }
    }

    /// Every chunk's queue keeps the last eight triggers.
    pub closed spec fn well_formed(&self) -> bool {
        &&& forall|c: usize| #[trigger] self.last_triggered@.contains_key(c) ==> queue_capacity(self.last_triggered@[c]) == HISTORY_LENGTH
        &&& forall|c: usize| #[trigger] self.recent(c).len() <= HISTORY_LENGTH
    }

    /// Nothing played yet.
    pub fn new() -> (r: TriggerHistory)
        ensures
            r.well_formed(),
            forall|c: usize| #[trigger] r.recent(c) == Seq::<u32>::empty(),
    {
        TriggerHistory { last_triggered: HashMap::new() }
    }

    /// A chunk played trigger `id`: it becomes the chunk's newest, and only the last eight
    /// are kept.
    pub fn record(&mut self, chunk_index: usize, id: u32)
        requires
            old(self).well_formed(),
        ensures
            final(self).well_formed(),
            final(self).recent(chunk_index) == if old(self).recent(chunk_index).len() < HISTORY_LENGTH {
                old(self).recent(chunk_index).push(id)
            } else {
                old(self).recent(chunk_index).drop_first().push(id)
            },
            forall|c: usize| c != chunk_index ==> #[trigger] final(self).recent(c) == old(self).recent(c),
    {
        broadcast use vstd::std_specs::hash::group_hash_axioms;
        let mut queue = match self.last_triggered.remove(&chunk_index) {
            Some(q) => q,
            None => queue_with_capacity(HISTORY_LENGTH),
        };
        queue_push(&mut queue, id);
        self.last_triggered.insert(chunk_index, queue);
        proof {
            assert forall|c: usize| #[trigger] self.last_triggered@.contains_key(c) implies queue_capacity(self.last_triggered@[c]) == HISTORY_LENGTH by {
                if c != chunk_index {
                    assert(old(self).last_triggered@.contains_key(c));
                }
            }
            assert forall|c: usize| #[trigger] self.recent(c).len() <= HISTORY_LENGTH by {
                if c != chunk_index {
                    assert(self.recent(c) == old(self).recent(c));
                    assert(old(self).recent(c).len() <= HISTORY_LENGTH);
                } else {
                    assert(old(self).recent(c).len() <= HISTORY_LENGTH);
                }
            }
            assert forall|c: usize| c != chunk_index implies #[trigger] self.recent(c) == old(self).recent(c) by {
                if old(self).last_triggered@.contains_key(c) {
                    assert(self.last_triggered@[c] == old(self).last_triggered@[c]);
                }
            }
        }
    }

    /// How often a chunk played trigger `id` among its recent triggers.
    pub fn rank(&self, chunk_index: usize, id: u32) -> (r: u32)
        requires
            self.well_formed(),
        ensures
            r == occurrences(self.recent(chunk_index), id),
    {
        broadcast use vstd::std_specs::hash::group_hash_axioms;
        match self.last_triggered.get(&chunk_index) {
            Some(q) => {
                let items = queue_newest_first(q);
                let ghost s = queue_contents(*q);
                proof {
                    assert(self.recent(chunk_index).len() <= HISTORY_LENGTH);
                }
                let mut count: u32 = 0;
                let mut i: usize = items.len();
                while i > 0
                    invariant
                        i <= items@.len(),
                        items@ == s.reverse(),
                        s.len() <= HISTORY_LENGTH,
                        count == occurrences(s.take(s.len() - i), id),
                        count <= s.len() - i,
                    decreases i,
                {
                    i = i - 1;
                    let ghost k = (s.len() - i - 1) as int;
                    proof {
                        assert(items@[i as int] == s[k]);
                        assert(s.take(k + 1).drop_last() == s.take(k));
                    }
                    if items[i] == id {
                        count = count + 1;
                    }
                }
                proof {
                    assert(s.take(s.len() as int) == s);
                }
                count
            },
            None => 0,
        }
    }
}

} // verus!
