use vstd::prelude::*;

use crate::output_value::OutputValue;

verus! {

/// The offset a trigger holds, by trigger (cycling every eight).
pub open spec fn offset_for(id: u32) -> int {
    seq![-4int, -3, -2, -1, 1, 2, 3, 4][(id % 8) as int]
}

fn offset_for_exec(id: u32) -> (r: i32)
    ensures
        r == offset_for(id),
{
    let offsets: [i32; 8] = [-4, -3, -2, -1, 1, 2, 3, 4];
    proof {
        assert(offsets@.map_values(|x: i32| x as int) =~= seq![-4int, -3, -2, -1, 1, 2, 3, 4]);
        assert(offsets@[(id % 8) as int] as int == offsets@.map_values(|x: i32| x as int)[(id % 8) as int]);
    }
    offsets[(id % 8) as usize]
}

/// The sum of the offsets of the given triggers.
pub open spec fn sum_offsets(ids: Seq<u32>) -> int
    decreases ids.len(),
{
    if ids.len() == 0 {
        0
    } else {
        sum_offsets(ids.drop_last()) + offset_for(ids.last())
    }
}

/// Most triggers that can be held at once.
pub const MAX_HELD: usize = 0x1000_0000;

proof fn lemma_sum_bound(ids: Seq<u32>)
    ensures
        -4 * ids.len() <= sum_offsets(ids) <= 4 * ids.len(),
    decreases ids.len(),
{
    if ids.len() > 0 {
        lemma_sum_bound(ids.drop_last());
    }
}

proof fn lemma_sum_remove(ids: Seq<u32>, i: int)
    requires
        0 <= i < ids.len(),
    ensures
        sum_offsets(ids.remove(i)) == sum_offsets(ids) - offset_for(ids[i]),
    decreases ids.len(),
{
    if i == ids.len() - 1 {
        assert(ids.remove(i) =~= ids.drop_last());
    } else {
        let r = ids.remove(i);
        assert(r.drop_last() =~= ids.drop_last().remove(i));
        assert(r.last() == ids.last());
        lemma_sum_remove(ids.drop_last(), i);
    }
}

/// The triggers currently held down by an offset control, each once.
pub struct HeldOffsets {
    ids: Vec<u32>,
}

impl HeldOffsets {
    pub closed spec fn ids(&self) -> Seq<u32> {
        self.ids@
    }

    /// The held triggers, each once and not too many to sum.
    pub open spec fn well_formed(&self) -> bool {
        self.ids().no_duplicates() && self.ids().len() < MAX_HELD
    }

    /// The combined offset of the held triggers.
    pub open spec fn total(&self) -> int {
        sum_offsets(self.ids())
    }

    pub fn new() -> (r: HeldOffsets)
        ensures
            r.ids() == Seq::<u32>::empty(),
            r.well_formed(),
    {
        HeldOffsets { ids: Vec::new() }
    }

    /// A press holds the trigger (once), a release lets it go; returns the new total.
    pub fn trigger(&mut self, id: u32, value: OutputValue) -> (r: i32)
        requires
            old(self).well_formed(),
            old(self).ids().len() + 1 < MAX_HELD,
        ensures
            final(self).well_formed(),
            final(self).ids().to_set() == match value {
                OutputValue::Off => old(self).ids().to_set().remove(id),
                OutputValue::On(_) => old(self).ids().to_set().insert(id),
            },
            r == final(self).total(),
            value is On && !old(self).ids().contains(id) ==> final(self).total() == old(self).total() + offset_for(id),
            value is Off && old(self).ids().contains(id) ==> final(self).total() == old(self).total() - offset_for(id),
            !(value is On && !old(self).ids().contains(id)) && !(value is Off && old(self).ids().contains(id))
                ==> final(self).total() == old(self).total(),
    {
        let mut found: Option<usize> = None;
        let mut i: usize = 0;
        while i < self.ids.len()
            invariant
                0 <= i <= self.ids@.len(),
                self.ids@ == old(self).ids(),
                found is None ==> forall|j: int| 0 <= j < i ==> self.ids@[j] != id,
                found matches Some(k) ==> k < self.ids@.len() && self.ids@[k as int] == id,
            decreases self.ids@.len() - i,
        {
            if found.is_none() && self.ids[i] == id {
                found = Some(i);
            }
            i += 1;
        }
        let ghost s = self.ids@;
        match value {
            OutputValue::Off => {
                if let Some(k) = found {
                    self.ids.remove(k);
                    proof {
                        lemma_sum_remove(s, k as int);
                        assert(self.ids@ == s.remove(k as int));
                        assert(self.ids@.no_duplicates()) by {
                            assert forall|a: int, b: int| 0 <= a < self.ids@.len() && 0 <= b < self.ids@.len() && a != b
                                implies self.ids@[a] != self.ids@[b] by {
                                let a2 = if a < k { a } else { a + 1 };
                                let b2 = if b < k { b } else { b + 1 };
                                assert(self.ids@[a] == s[a2] && self.ids@[b] == s[b2]);
                            }
                        }
                        assert(self.ids@.to_set() =~= s.to_set().remove(id)) by {
                            assert forall|x: u32| self.ids@.to_set().contains(x) <==> s.to_set().remove(id).contains(x) by {
                                if self.ids@.to_set().contains(x) {
                                    let a = choose|a: int| 0 <= a < self.ids@.len() && self.ids@[a] == x;
                                    let a2 = if a < k { a } else { a + 1 };
                                    assert(s[a2] == x);
                                    assert(a2 != k);
                                }
                                if s.to_set().remove(id).contains(x) {
                                    let a = choose|a: int| 0 <= a < s.len() && s[a] == x;
                                    assert(a != k);
                                    if a < k {
                                        assert(self.ids@[a] == x);
                                    } else {
                                        assert(self.ids@[a - 1] == x);
                                    }
                                }
                            }
                        }
                    }
                } else {
                    proof {
                        assert(!s.contains(id));
                        assert(s.to_set().remove(id) =~= s.to_set());
                    }
                }
            },
            OutputValue::On(_) => {
                if found.is_none() {
                    self.ids.push(id);
                    proof {
                        assert(self.ids@.drop_last() =~= s);
                        assert(self.ids@ == s.push(id));
                        assert forall|x: u32| self.ids@.to_set().contains(x) <==> s.to_set().insert(id).contains(x) by {
                            if self.ids@.to_set().contains(x) {
                                let a = choose|a: int| 0 <= a < self.ids@.len() && self.ids@[a] == x;
                                if a < s.len() {
                                    assert(s[a] == x);
                                }
                            }
                            if s.to_set().contains(x) {
                                let a = choose|a: int| 0 <= a < s.len() && s[a] == x;
                                assert(self.ids@[a] == x);
                            }
                            if x == id {
                                assert(self.ids@[s.len() as int] == x);
                            }
                        }
                        assert(self.ids@.to_set() =~= s.to_set().insert(id));
                        assert(!s.contains(id));
                    }
                } else {
                    proof {
                        assert(s.contains(id));
                        assert(s.to_set().insert(id) =~= s.to_set());
                    }
                }
            },
        }
        self.sum()
    }

    /// The combined offset of the held triggers.
    pub fn sum(&self) -> (r: i32)
        requires
            self.well_formed(),
        ensures
            r == self.total(),
    {
        let mut total: i64 = 0;
        let mut i: usize = 0;
        while i < self.ids.len()
            invariant
                0 <= i <= self.ids@.len(),
                self.ids@.len() < MAX_HELD,
                total == sum_offsets(self.ids@.subrange(0, i as int)),
            decreases self.ids@.len() - i,
        {
            proof {
                lemma_sum_bound(self.ids@.subrange(0, i as int));
                assert(self.ids@.subrange(0, i + 1).drop_last() =~= self.ids@.subrange(0, i as int));
            }
            total = total + offset_for_exec(self.ids[i]) as i64;
            i += 1;
        }
        proof {
            assert(self.ids@.subrange(0, self.ids@.len() as int) =~= self.ids@);
            lemma_sum_bound(self.ids@);
        }
        total as i32
    }
}

/// Pressing a trigger that is not held and then releasing it gives back the total.
pub proof fn law_press_release_restores(before: Seq<u32>, after_press: Seq<u32>, after_release: Seq<u32>, id: u32)
    requires
        !before.contains(id),
        sum_offsets(after_press) == sum_offsets(before) + offset_for(id),
        after_press.contains(id),
        sum_offsets(after_release) == sum_offsets(after_press) - offset_for(id),
    ensures
        sum_offsets(after_release) == sum_offsets(before),
{
}

/// Shifts the key's offset by the sum of the held offset triggers.
pub struct OffsetChunk {
    held: HeldOffsets,
}

impl OffsetChunk {
    pub closed spec fn held(&self) -> HeldOffsets {
        self.held
    }

    pub fn new() -> (r: OffsetChunk)
        ensures
            r.held().ids() == Seq::<u32>::empty(),
            r.held().well_formed(),
    {
        OffsetChunk { held: HeldOffsets::new() }
    }

    /// A trigger changed value; returns the offset the key now takes.
    pub fn trigger(&mut self, id: u32, value: OutputValue) -> (r: i32)
        requires
            old(self).held().well_formed(),
            old(self).held().ids().len() + 1 < MAX_HELD,
        ensures
            final(self).held().well_formed(),
            final(self).held().ids().to_set() == match value {
                OutputValue::Off => old(self).held().ids().to_set().remove(id),
                OutputValue::On(_) => old(self).held().ids().to_set().insert(id),
            },
            r == final(self).held().total(),
    {
        self.held.trigger(id, value)
    }
}

} // verus!
