use vstd::prelude::*;

use crate::midi_time::MidiTime;
use crate::output_value::{value_rank, OutputValue};
use core::cmp::Ordering;

verus! {

/// A recorded change of one trigger's value at a position in the loop.
#[derive(Debug, Copy, Clone, PartialEq, Eq, Structural)]
pub struct LoopEvent {
    pub value: OutputValue,
    pub pos: MidiTime,
    pub id: u32,
}

/// The order in which events are kept: by position; at the same position releases
/// before presses (and lower velocities after higher ones); then by trigger id.
pub open spec fn event_lt(a: LoopEvent, b: LoopEvent) -> bool {
    ||| a.pos@ < b.pos@
    ||| (a.pos@ == b.pos@ && value_rank(a.value) > value_rank(b.value))
    ||| (a.pos@ == b.pos@ && value_rank(a.value) == value_rank(b.value) && a.id < b.id)
}

/// Strictly increasing in the event order (so no event occurs twice).
pub open spec fn sorted_events(s: Seq<LoopEvent>) -> bool {
    forall|i: int, j: int| 0 <= i < j < s.len() ==> event_lt(#[trigger] s[i], #[trigger] s[j])
}

/// Positions never decrease along the sequence.
pub open spec fn pos_sorted(s: Seq<LoopEvent>) -> bool {
    forall|i: int, j: int| 0 <= i <= j < s.len() ==> (#[trigger] s[i]).pos@ <= (#[trigger] s[j]).pos@
}

/// Number of leading events of `s` that lie strictly before position `t`.
pub open spec fn lower_index(s: Seq<LoopEvent>, t: int) -> int
    decreases s.len(),
{
    if s.len() == 0 {
        0
    } else if s[0].pos@ < t {
        1 + lower_index(s.drop_first(), t)
    } else {
        0
    }
}

/// Number of leading events of `s` that lie at or before position `t`.
pub open spec fn upper_index(s: Seq<LoopEvent>, t: int) -> int
    decreases s.len(),
{
    if s.len() == 0 {
        0
    } else if s[0].pos@ <= t {
        1 + upper_index(s.drop_first(), t)
    } else {
        0
    }
}

pub proof fn lemma_event_lt_total(a: LoopEvent, b: LoopEvent)
    ensures
        event_lt(a, b) || event_lt(b, a) || a == b,
        !(event_lt(a, b) && event_lt(b, a)),
        !event_lt(a, a),
{
    crate::output_value::lemma_rank_determines(a.value, b.value);
    crate::midi_time::lemma_view_determines(a.pos, b.pos);
}

/// The events after the first of a sorted list are its other events.
proof fn lemma_sorted_tail_set(a: Seq<LoopEvent>)
    requires
        sorted_events(a),
        a.len() > 0,
    ensures
        forall|x: LoopEvent| #[trigger] a.drop_first().contains(x) <==> (a.contains(x) && x != a[0]),
{
    assert forall|x: LoopEvent| #[trigger] a.drop_first().contains(x) <==> (a.contains(x) && x != a[0]) by {
        if a.drop_first().contains(x) {
            let j = choose|j: int| 0 <= j < a.drop_first().len() && a.drop_first()[j] == x;
            assert(a[j + 1] == x);
            assert(event_lt(a[0], a[j + 1]));
            lemma_event_lt_total(x, x);
        }
        if a.contains(x) && x != a[0] {
            let j = choose|j: int| 0 <= j < a.len() && a[j] == x;
            assert(j != 0);
            assert(a.drop_first()[j - 1] == x);
        }
    }
}

/// A list sorted in the event order is determined by its events: two sorted lists that
/// hold the same events are the same list.
pub proof fn law_sorted_events_are_determined_by_their_set(a: Seq<LoopEvent>, b: Seq<LoopEvent>)
    requires
        sorted_events(a),
        sorted_events(b),
        a.to_set() == b.to_set(),
    ensures
        a == b,
    decreases a.len(),
{
    if a.len() == 0 {
        if b.len() > 0 {
            assert(b.to_set().contains(b[0]));
        }
        assert(a =~= b);
    } else {
        if b.len() == 0 {
            assert(a.to_set().contains(a[0]));
        }
        assert(a.to_set().contains(a[0]));
        assert(b.to_set().contains(b[0]));
        let k = choose|k: int| 0 <= k < b.len() && b[k] == a[0];
        let m = choose|m: int| 0 <= m < a.len() && a[m] == b[0];
        if a[0] != b[0] {
            assert(k > 0 && m > 0);
            assert(event_lt(b[0], b[k]));
            assert(event_lt(a[0], a[m]));
            lemma_event_lt_total(a[0], b[0]);
        }
        assert(a[0] == b[0]);
        let ta = a.drop_first();
        let tb = b.drop_first();
        lemma_sorted_tail_set(a);
        lemma_sorted_tail_set(b);
        assert(ta.to_set() =~= tb.to_set()) by {
            assert forall|x: LoopEvent| ta.to_set().contains(x) == tb.to_set().contains(x) by {
                assert(a[0] == b[0]);
                assert(ta.to_set().contains(x) == ta.contains(x));
                assert(tb.to_set().contains(x) == tb.contains(x));
                assert(a.to_set().contains(x) == a.contains(x));
                assert(b.to_set().contains(x) == b.contains(x));
                assert(ta.contains(x) == (a.contains(x) && x != a[0]));
                assert(tb.contains(x) == (b.contains(x) && x != b[0]));
                assert(a.to_set().contains(x) == b.to_set().contains(x));
            }
        }
        assert(sorted_events(ta)) by {
            assert forall|i: int, j: int| 0 <= i < j < ta.len() implies event_lt(#[trigger] ta[i], #[trigger] ta[j]) by {
                assert(ta[i] == a[i + 1] && ta[j] == a[j + 1]);
            }
        }
        assert(sorted_events(tb)) by {
            assert forall|i: int, j: int| 0 <= i < j < tb.len() implies event_lt(#[trigger] tb[i], #[trigger] tb[j]) by {
                assert(tb[i] == b[i + 1] && tb[j] == b[j + 1]);
            }
        }
        law_sorted_events_are_determined_by_their_set(ta, tb);
        assert(a =~= seq![a[0]] + ta);
        assert(b =~= seq![b[0]] + tb);
    }
}

pub proof fn lemma_event_lt_transitive(a: LoopEvent, b: LoopEvent, c: LoopEvent)
    requires
        event_lt(a, b),
        event_lt(b, c),
    ensures
        event_lt(a, c),
{
}

pub proof fn lemma_sorted_is_pos_sorted(s: Seq<LoopEvent>)
    requires
        sorted_events(s),
    ensures
        pos_sorted(s),
{
    assert forall|i: int, j: int| 0 <= i <= j < s.len() implies (#[trigger] s[i]).pos@ <= (#[trigger] s[j]).pos@ by {
        if i < j {
            assert(event_lt(s[i], s[j]));
        }
    }
}

/// In a position-sorted sequence, `k` is the lower index exactly when everything before `k`
/// lies before `t` and everything from `k` on does not.
pub proof fn lemma_lower_index(s: Seq<LoopEvent>, t: int, k: int)
    requires
        pos_sorted(s),
        0 <= k <= s.len(),
        forall|i: int| 0 <= i < k ==> (#[trigger] s[i]).pos@ < t,
        forall|i: int| k <= i < s.len() ==> (#[trigger] s[i]).pos@ >= t,
    ensures
        lower_index(s, t) == k,
    decreases s.len(),
{
    if s.len() > 0 {
        if k > 0 {
            assert(s[0].pos@ < t);
            let r = s.drop_first();
            assert forall|i: int, j: int| 0 <= i <= j < r.len() implies (#[trigger] r[i]).pos@ <= (#[trigger] r[j]).pos@ by {
                assert(r[i] == s[i + 1] && r[j] == s[j + 1]);
            }
            assert forall|i: int| 0 <= i < k - 1 implies (#[trigger] r[i]).pos@ < t by {
                assert(r[i] == s[i + 1]);
            }
            assert forall|i: int| k - 1 <= i < r.len() implies (#[trigger] r[i]).pos@ >= t by {
                assert(r[i] == s[i + 1]);
            }
            lemma_lower_index(r, t, k - 1);
        } else {
            assert(s[0].pos@ >= t);
        }
    }
}

/// The same characterisation for the upper index.
pub proof fn lemma_upper_index(s: Seq<LoopEvent>, t: int, k: int)
    requires
        pos_sorted(s),
        0 <= k <= s.len(),
        forall|i: int| 0 <= i < k ==> (#[trigger] s[i]).pos@ <= t,
        forall|i: int| k <= i < s.len() ==> (#[trigger] s[i]).pos@ > t,
    ensures
        upper_index(s, t) == k,
    decreases s.len(),
{
    if s.len() > 0 {
        if k > 0 {
            assert(s[0].pos@ <= t);
            let r = s.drop_first();
            assert forall|i: int, j: int| 0 <= i <= j < r.len() implies (#[trigger] r[i]).pos@ <= (#[trigger] r[j]).pos@ by {
                assert(r[i] == s[i + 1] && r[j] == s[j + 1]);
            }
            assert forall|i: int| 0 <= i < k - 1 implies (#[trigger] r[i]).pos@ <= t by {
                assert(r[i] == s[i + 1]);
            }
            assert forall|i: int| k - 1 <= i < r.len() implies (#[trigger] r[i]).pos@ > t by {
                assert(r[i] == s[i + 1]);
            }
            lemma_upper_index(r, t, k - 1);
        } else {
            assert(s[0].pos@ > t);
        }
    }
}

/// The events that `LoopEvent::range` hands back are exactly those of the collection
/// that lie in `[start, end)`.
pub proof fn lemma_range_contents(s: Seq<LoopEvent>, start: int, end: int, e: LoopEvent)
    requires
        pos_sorted(s),
    ensures
        ({
            let a = lower_index(s, start);
            let b = lower_index(s, end);
            let r = s.subrange(a, if a > b { a } else { b });
            r.contains(e) <==> (s.contains(e) && start <= e.pos@ < end)
        }),
{
    let a = lower_index(s, start);
    let b = lower_index(s, end);
    lemma_lower_index_bounds(s, start);
    lemma_lower_index_bounds(s, end);
    let hi = if a > b { a } else { b };
    let r = s.subrange(a, hi);
    if r.contains(e) {
        let k = choose|k: int| 0 <= k < r.len() && r[k] == e;
        assert(s[a + k] == e);
        assert(s.contains(e));
    }
    if s.contains(e) && start <= e.pos@ < end {
        let k = choose|k: int| 0 <= k < s.len() && s[k] == e;
        assert(k >= a);
        assert(k < b);
        assert(r[k - a] == e);
    }
}

/// What the lower index says about the events on either side of it.
pub proof fn lemma_lower_index_bounds(s: Seq<LoopEvent>, t: int)
    requires
        pos_sorted(s),
    ensures
        0 <= lower_index(s, t) <= s.len(),
        forall|i: int| 0 <= i < lower_index(s, t) ==> (#[trigger] s[i]).pos@ < t,
        forall|i: int| lower_index(s, t) <= i < s.len() ==> (#[trigger] s[i]).pos@ >= t,
    decreases s.len(),
{
    if s.len() > 0 {
        let r = s.drop_first();
        assert forall|i: int, j: int| 0 <= i <= j < r.len() implies (#[trigger] r[i]).pos@ <= (#[trigger] r[j]).pos@ by {
            assert(r[i] == s[i + 1] && r[j] == s[j + 1]);
        }
        lemma_lower_index_bounds(r, t);
        if s[0].pos@ < t {
            assert forall|i: int| 0 <= i < lower_index(s, t) implies (#[trigger] s[i]).pos@ < t by {
                if i > 0 {
                    assert(s[i] == r[i - 1]);
                }
            }
            assert forall|i: int| lower_index(s, t) <= i < s.len() implies (#[trigger] s[i]).pos@ >= t by {
                assert(s[i] == r[i - 1]);
            }
        } else {
            assert forall|i: int| 0 <= i < s.len() implies (#[trigger] s[i]).pos@ >= t by {
                assert(s[0].pos@ <= s[i].pos@);
            }
        }
    }
}

/// First index of a position-sorted slice whose event is not before `t`.
fn lower_bound(c: &[LoopEvent], t: MidiTime) -> (r: usize)
    requires
        pos_sorted(c@),
    ensures
        r == lower_index(c@, t@),
        r <= c@.len(),
{
    let mut lo: usize = 0;
    let mut hi: usize = c.len();
    while lo < hi
        invariant
            0 <= lo <= hi <= c@.len(),
            pos_sorted(c@),
            forall|i: int| 0 <= i < lo ==> (#[trigger] c@[i]).pos@ < t@,
            forall|i: int| hi <= i < c@.len() ==> (#[trigger] c@[i]).pos@ >= t@,
        decreases hi - lo,
    {
        let mid = lo + (hi - lo) / 2;
        if c[mid].pos.is_before(t) {
            lo = mid + 1;
        } else {
            hi = mid;
        }
    }
    proof {
        lemma_lower_index(c@, t@, lo as int);
    }
    lo
}

/// First index of a position-sorted slice whose event is after `t`.
pub(crate) fn upper_bound(c: &[LoopEvent], t: MidiTime) -> (r: usize)
    requires
        pos_sorted(c@),
    ensures
        r == upper_index(c@, t@),
        r <= c@.len(),
        forall|i: int| 0 <= i < r ==> (#[trigger] c@[i]).pos@ <= t@,
        forall|i: int| r <= i < c@.len() ==> (#[trigger] c@[i]).pos@ > t@,
{
    let mut lo: usize = 0;
    let mut hi: usize = c.len();
    while lo < hi
        invariant
            0 <= lo <= hi <= c@.len(),
            pos_sorted(c@),
            forall|i: int| 0 <= i < lo ==> (#[trigger] c@[i]).pos@ <= t@,
            forall|i: int| hi <= i < c@.len() ==> (#[trigger] c@[i]).pos@ > t@,
        decreases hi - lo,
    {
        let mid = lo + (hi - lo) / 2;
        if c[mid].pos.is_at_or_before(t) {
            lo = mid + 1;
        } else {
            hi = mid;
        }
    }
    proof {
        lemma_upper_index(c@, t@, lo as int);
    }
    lo
}

impl LoopEvent {
    /// Whether the event is a press.
    pub fn is_on(&self) -> (r: bool)
        ensures
            r == (self.value is On),
    {
        self.value.is_on()
    }

    /// The same event moved to another position.
    pub fn with_pos(&self, new_pos: MidiTime) -> (r: LoopEvent)
        ensures
            r == (LoopEvent { id: self.id, value: self.value, pos: new_pos }),
    {
        LoopEvent { id: self.id, value: self.value, pos: new_pos }
    }

    /// Whether this event comes before `other` in the order in which events are kept.
    pub fn precedes(&self, other: &LoopEvent) -> (r: bool)
        ensures
            r == event_lt(*self, *other),
    {
        if self.pos.is_before(other.pos) {
            true
        } else if other.pos.is_before(self.pos) {
            false
        } else {
            let a = self.value.rank();
            let b = other.value.rank();
            a > b || (a == b && self.id < other.id)
        }
    }

    /// Compares two events in the order in which they are kept.
    pub fn cmp(&self, other: &LoopEvent) -> (r: Ordering)
        ensures
            r == Ordering::Less <==> event_lt(*self, *other),
            r == Ordering::Greater <==> event_lt(*other, *self),
            r == Ordering::Equal <==> *self == *other,
    {
        proof {
            lemma_event_lt_total(*self, *other);
        }
        if self.precedes(other) {
            Ordering::Less
        } else if other.precedes(self) {
            Ordering::Greater
        } else {
            Ordering::Equal
        }
    }

    /// Adds this event to a sorted collection, in order; an equal event already there
    /// is replaced.
    pub fn insert_into(self, target: &mut Vec<LoopEvent>)
        requires
            sorted_events(old(target)@),
        ensures
            sorted_events(final(target)@),
            final(target)@.to_set() == old(target)@.to_set().insert(self),
            final(target)@.len() == old(target)@.len() + if old(target)@.contains(self) { 0int } else { 1int },
            old(target)@.contains(self) ==> final(target)@ == old(target)@,
    {
        let mut lo: usize = 0;
        let mut hi: usize = target.len();
        while lo < hi
            invariant
                0 <= lo <= hi <= target@.len(),
                target@ == old(target)@,
                sorted_events(target@),
                forall|i: int| 0 <= i < lo ==> event_lt(#[trigger] target@[i], self),
                forall|i: int| hi <= i < target@.len() ==> !event_lt(#[trigger] target@[i], self),
            decreases hi - lo,
        {
            let mid = lo + (hi - lo) / 2;
            if target[mid].precedes(&self) {
                lo = mid + 1;
            } else {
                hi = mid;
            }
        }
        let ghost s = target@;
        if lo < target.len() && target[lo] == self {
            // Already present: it stays where it is.
            proof {
                assert(s.contains(self));
                assert(s.to_set().insert(self) =~= s.to_set());
            }
        } else {
            proof {
                assert(!s.contains(self)) by {
                    if s.contains(self) {
                        let k = choose|k: int| 0 <= k < s.len() && s[k] == self;
                        lemma_event_lt_total(self, self);
                        if k < lo {
                        } else if k > lo {
                            assert(event_lt(s[lo as int], s[k]));
                            lemma_event_lt_total(s[lo as int], self);
                        }
                    }
                }
            }
            target.insert(lo, self);
            proof {
                let t = target@;
                assert(t == s.insert(lo as int, self));
                assert forall|i: int, j: int| 0 <= i < j < t.len() implies event_lt(#[trigger] t[i], #[trigger] t[j]) by {
                    if j < lo {
                        assert(t[i] == s[i] && t[j] == s[j]);
                    } else if j == lo {
                        assert(t[i] == s[i]);
                    } else if i < lo {
                        assert(t[i] == s[i] && t[j] == s[j - 1]);
                        assert(event_lt(s[i], self));
                        lemma_event_lt_total(s[j - 1], self);
                        if j - 1 > lo {
                            assert(event_lt(s[lo as int], s[j - 1]));
                        }
                        assert(event_lt(self, s[j - 1]) || s[j - 1] == self || event_lt(s[j - 1], self));
                        lemma_event_lt_transitive(s[i], self, s[j - 1]);
                    } else if i == lo {
                        assert(t[j] == s[j - 1]);
                        lemma_event_lt_total(s[j - 1], self);
                        if j - 1 > lo {
                            assert(event_lt(s[lo as int], s[j - 1]));
                            lemma_event_lt_total(s[lo as int], self);
                        }
                    } else {
                        assert(t[i] == s[i - 1] && t[j] == s[j - 1]);
                    }
                }
                assert(t.to_set() =~= s.to_set().insert(self)) by {
                    assert forall|x: LoopEvent| t.to_set().contains(x) implies s.to_set().insert(self).contains(x) by {
                        let k = choose|k: int| 0 <= k < t.len() && t[k] == x;
                        if k < lo {
                            assert(s[k] == x);
                        } else if k > lo {
                            assert(s[k - 1] == x);
                        }
                    }
                    assert forall|x: LoopEvent| s.to_set().insert(self).contains(x) implies t.to_set().contains(x) by {
                        if x == self {
                            assert(t[lo as int] == x);
                        } else {
                            let k = choose|k: int| 0 <= k < s.len() && s[k] == x;
                            if k < lo {
                                assert(t[k] == x);
                            } else {
                                assert(t[k + 1] == x);
                            }
                        }
                    }
                }
            }
        }
    }

    /// The events of a position-sorted collection that lie in `[start_pos, end_pos)`.
    pub fn range<'a>(collection: &'a [LoopEvent], start_pos: MidiTime, end_pos: MidiTime) -> (r: &'a [LoopEvent])
        requires
            pos_sorted(collection@),
        ensures
            ({
                let a = lower_index(collection@, start_pos@);
                let b = lower_index(collection@, end_pos@);
                r@ == collection@.subrange(a, if a > b { a } else { b })
            }),
            forall|e: LoopEvent| r@.contains(e) <==> (collection@.contains(e) && start_pos@ <= e.pos@ < end_pos@),
    {
        let start_index = lower_bound(collection, start_pos);
        let end_index = lower_bound(collection, end_pos);
        let hi = if start_index > end_index { start_index } else { end_index };
        proof {
            assert forall|e: LoopEvent| collection@.subrange(start_index as int, hi as int).contains(e) <==> (collection@.contains(e) && start_pos@ <= e.pos@ < end_pos@) by {
                lemma_range_contents(collection@, start_pos@, end_pos@, e);
                assert(hi as int == if (start_index as int) > (end_index as int) { start_index as int } else { end_index as int });
            }
        }
        let r = &collection[start_index..hi];
        assert(r@ == collection@.subrange(start_index as int, hi as int));
        assert forall|e: LoopEvent| r@.contains(e) <==> (collection@.contains(e) && start_pos@ <= e.pos@ < end_pos@) by {
            assert(collection@.subrange(start_index as int, hi as int).contains(e) <==> (collection@.contains(e) && start_pos@ <= e.pos@ < end_pos@));
        }
        r
    }

    /// The event in effect at `pos`: the one at the latest position that is not after `pos`.
    pub fn at<'a>(collection: &'a [LoopEvent], pos: MidiTime) -> (r: Option<&'a LoopEvent>)
        requires
            pos_sorted(collection@),
        ensures
            ({
                let k = upper_index(collection@, pos@);
                match r {
                    Some(e) => 0 < k <= collection@.len() && *e == collection@[k - 1],
                    None => k == 0,
                }
            }),
            match r {
                Some(e) => collection@.contains(*e) && e.pos@ <= pos@
                    && forall|i: int| 0 <= i < collection@.len() && (#[trigger] collection@[i]).pos@ <= pos@
                        ==> collection@[i].pos@ <= e.pos@,
                None => forall|i: int| 0 <= i < collection@.len() ==> (#[trigger] collection@[i]).pos@ > pos@,
            },
    {
        let index = upper_bound(collection, pos);
        if index > 0 {
            proof {
                assert forall|i: int| 0 <= i < collection@.len() && (#[trigger] collection@[i]).pos@ <= pos@
                    implies collection@[i].pos@ <= collection@[index - 1].pos@ by {
                    if i > index - 1 {
                        assert(collection@[i].pos@ > pos@);
                    }
                }
            }
            Some(&collection[index - 1])
        } else {
            None
        }
    }
}

} // verus!
