use vstd::prelude::*;

use crate::loop_transform::LoopTransform;

verus! {

/// Keys strictly increasing along the sequence.
pub open spec fn keys_increasing(s: Seq<(u32, LoopTransform)>) -> bool {
    forall|i: int, j: int| 0 <= i < j < s.len() ==> (#[trigger] s[i]).0 < (#[trigger] s[j]).0
}

/// The map that a sequence of (key, value) pairs with distinct keys stands for.
pub open spec fn pairs_to_map(s: Seq<(u32, LoopTransform)>) -> Map<u32, LoopTransform> {
    Map::new(
        |k: u32| exists|i: int| 0 <= i < s.len() && (#[trigger] s[i]).0 == k,
        |k: u32| s[choose|i: int| 0 <= i < s.len() && (#[trigger] s[i]).0 == k].1,
    )
}

/// The value a map holds for a key, if any.
pub open spec fn lookup(m: Map<u32, LoopTransform>, k: u32) -> Option<LoopTransform> {
    if m.contains_key(k) {
        Some(m[k])
    } else {
        None
    }
}

/// The per-trigger transforms of a loop, kept ordered by trigger id: whether two loops
/// hold the same transforms is decided entry by entry (the loop history ignores setting
/// the loop it holds), and the transforms come out in trigger order.
#[derive(Debug)]
pub struct TransformMap {
    entries: Vec<(u32, LoopTransform)>,
}

proof fn lemma_map_at(s: Seq<(u32, LoopTransform)>, i: int)
    requires
        keys_increasing(s),
        0 <= i < s.len(),
    ensures
        pairs_to_map(s).contains_key(s[i].0),
        pairs_to_map(s)[s[i].0] == s[i].1,
{
    let k = s[i].0;
    assert(exists|j: int| 0 <= j < s.len() && (#[trigger] s[j]).0 == k);
    let j = choose|j: int| 0 <= j < s.len() && (#[trigger] s[j]).0 == k;
    if j < i {
        assert(s[j].0 < s[i].0);
    } else if j > i {
        assert(s[i].0 < s[j].0);
    }
}

impl View for TransformMap {
    type V = Map<u32, LoopTransform>;

    closed spec fn view(&self) -> Map<u32, LoopTransform> {
        pairs_to_map(self.entries@)
    }
}

impl Clone for TransformMap {
    fn clone(&self) -> (r: TransformMap)
        ensures
            r@ == self@,
    {
        proof {
            use_type_invariant(self);
        }
        let mut entries: Vec<(u32, LoopTransform)> = Vec::new();
        let mut i: usize = 0;
        while i < self.entries.len()
            invariant
                0 <= i <= self.entries@.len(),
                entries@ == self.entries@.subrange(0, i as int),
            decreases self.entries@.len() - i,
        {
            entries.push(self.entries[i]);
            i += 1;
            assert(entries@ =~= self.entries@.subrange(0, i as int));
        }
        assert(entries@ =~= self.entries@);
        TransformMap { entries }
    }
}

impl TransformMap {
    #[verifier::type_invariant]
    spec fn well_formed(&self) -> bool {
        keys_increasing(self.entries@)
    }

    /// The empty map.
    pub fn new() -> (r: TransformMap)
        ensures
            r@ == Map::<u32, LoopTransform>::empty(),
    {
        let r = TransformMap { entries: Vec::new() };
        assert(r@ =~= Map::<u32, LoopTransform>::empty());
        r
    }

    /// Number of triggers with a transform.
    pub fn len(&self) -> (r: usize)
        ensures
            r == self@.len(),
    {
        proof {
            use_type_invariant(self);
            self.lemma_len();
        }
        self.entries.len()
    }

    proof fn lemma_len(&self)
        requires
            keys_increasing(self.entries@),
        ensures
            self@.dom().finite(),
            self@.len() == self.entries@.len(),
        decreases self.entries@.len(),
    {
        let s = self.entries@;
        let keys = s.map_values(|p: (u32, LoopTransform)| p.0);
        assert(keys.no_duplicates()) by {
            assert forall|i: int, j: int| 0 <= i < keys.len() && 0 <= j < keys.len() && i != j implies keys[i] != keys[j] by {
                if i < j {
                    assert(s[i].0 < s[j].0);
                } else {
                    assert(s[j].0 < s[i].0);
                }
            }
        }
        assert(self@.dom() =~= keys.to_set()) by {
            assert forall|k: u32| self@.dom().contains(k) <==> keys.to_set().contains(k) by {
                if self@.dom().contains(k) {
                    let i = choose|i: int| 0 <= i < s.len() && (#[trigger] s[i]).0 == k;
                    assert(keys[i] == k);
                }
                if keys.to_set().contains(k) {
                    let i = choose|i: int| 0 <= i < keys.len() && keys[i] == k;
                    assert(s[i].0 == k);
                }
            }
        }
        keys.unique_seq_to_set();
    }

    /// Position of the first entry whose key is not below `id`.
    fn position(&self, id: u32) -> (r: usize)
        ensures
            r <= self.entries@.len(),
            forall|i: int| 0 <= i < r ==> (#[trigger] self.entries@[i]).0 < id,
            forall|i: int| r <= i < self.entries@.len() ==> (#[trigger] self.entries@[i]).0 >= id,
    {
        proof {
            use_type_invariant(self);
        }
        let mut lo: usize = 0;
        let mut hi: usize = self.entries.len();
        while lo < hi
            invariant
                0 <= lo <= hi <= self.entries@.len(),
                keys_increasing(self.entries@),
                forall|i: int| 0 <= i < lo ==> (#[trigger] self.entries@[i]).0 < id,
                forall|i: int| hi <= i < self.entries@.len() ==> (#[trigger] self.entries@[i]).0 >= id,
            decreases hi - lo,
        {
            let mid = lo + (hi - lo) / 2;
            if self.entries[mid].0 < id {
                lo = mid + 1;
            } else {
                hi = mid;
            }
        }
        lo
    }

    /// The transform held for a trigger.
    pub fn get(&self, id: u32) -> (r: Option<LoopTransform>)
        ensures
            r == lookup(self@, id),
    {
        proof {
            use_type_invariant(self);
        }
        let p = self.position(id);
        if p < self.entries.len() && self.entries[p].0 == id {
            proof {
                lemma_map_at(self.entries@, p as int);
            }
            Some(self.entries[p].1)
        } else {
            proof {
                if self@.contains_key(id) {
                    let i = choose|i: int| 0 <= i < self.entries@.len() && (#[trigger] self.entries@[i]).0 == id;
                    if i > p {
                        assert(self.entries@[p as int].0 < self.entries@[i].0);
                    }
                }
            }
            None
        }
    }

    /// Sets the transform of a trigger, replacing any earlier one.
    pub fn insert(&mut self, id: u32, value: LoopTransform)
        ensures
            final(self)@ == old(self)@.insert(id, value),
    {
        proof {
            use_type_invariant(&*self);
        }
        let p = self.position(id);
        let ghost s = self.entries@;
        let mut entries: Vec<(u32, LoopTransform)> = Vec::new();
        std::mem::swap(&mut entries, &mut self.entries);
        if p < entries.len() && entries[p].0 == id {
            entries.set(p, (id, value));
        } else {
            entries.insert(p, (id, value));
        }
        proof {
            let t = entries@;
            assert(keys_increasing(t)) by {
                assert forall|i: int, j: int| 0 <= i < j < t.len() implies (#[trigger] t[i]).0 < (#[trigger] t[j]).0 by {
                    if t.len() == s.len() {
                        if i == p {
                            assert(t[j] == s[j]);
                        } else if j == p {
                            assert(t[i] == s[i]);
                        } else {
                            assert(t[i] == s[i] && t[j] == s[j]);
                        }
                    } else {
                        if j < p {
                            assert(t[i] == s[i] && t[j] == s[j]);
                        } else if j == p {
                            assert(t[i] == s[i]);
                        } else if i < p {
                            assert(t[i] == s[i] && t[j] == s[j - 1]);
                        } else if i == p {
                            assert(t[j] == s[j - 1]);
                            if j - 1 > p {
                                assert(s[p as int].0 < s[j - 1].0);
                            }
                        } else {
                            assert(t[i] == s[i - 1] && t[j] == s[j - 1]);
                        }
                    }
                }
            }
            let m = pairs_to_map(t);
            let expected = pairs_to_map(s).insert(id, value);
            assert forall|k: u32| m.contains_key(k) <==> expected.contains_key(k) by {
                if m.contains_key(k) {
                    let i = choose|i: int| 0 <= i < t.len() && (#[trigger] t[i]).0 == k;
                    if k != id {
                        if t.len() == s.len() {
                            assert(s[i].0 == k);
                        } else if i < p {
                            assert(s[i].0 == k);
                        } else {
                            assert(i != p);
                            assert(s[i - 1].0 == k);
                        }
                    }
                }
                if expected.contains_key(k) {
                    if k == id {
                        assert(t[p as int].0 == k);
                    } else {
                        let i = choose|i: int| 0 <= i < s.len() && (#[trigger] s[i]).0 == k;
                        if t.len() == s.len() {
                            assert(t[i].0 == k);
                        } else if i < p {
                            assert(t[i].0 == k);
                        } else {
                            assert(t[i + 1].0 == k);
                        }
                    }
                }
            }
            assert forall|k: u32| m.contains_key(k) implies m[k] == expected[k] by {
                let i = choose|i: int| 0 <= i < t.len() && (#[trigger] t[i]).0 == k;
                lemma_map_at(t, i);
                if k == id {
                    assert(i == p) by {
                        if i != p {
                            lemma_map_at(t, p as int);
                        }
                    }
                } else {
                    if t.len() == s.len() {
                        assert(t[i] == s[i]);
                        lemma_map_at(s, i);
                    } else if i < p {
                        assert(t[i] == s[i]);
                        lemma_map_at(s, i);
                    } else {
                        assert(t[i] == s[i - 1]);
                        lemma_map_at(s, i - 1);
                    }
                }
            }
            assert(m =~= expected);
        }
        self.entries = entries;
    }

    /// Drops the transform of a trigger.
    pub fn remove(&mut self, id: u32)
        ensures
            final(self)@ == old(self)@.remove(id),
    {
        proof {
            use_type_invariant(&*self);
        }
        let p = self.position(id);
        let ghost s = self.entries@;
        if p < self.entries.len() && self.entries[p].0 == id {
            let mut entries: Vec<(u32, LoopTransform)> = Vec::new();
            std::mem::swap(&mut entries, &mut self.entries);
            entries.remove(p);
            proof {
                let t = entries@;
                assert(t == s.remove(p as int));
                assert(keys_increasing(t)) by {
                    assert forall|i: int, j: int| 0 <= i < j < t.len() implies (#[trigger] t[i]).0 < (#[trigger] t[j]).0 by {
                        if j < p {
                            assert(t[i] == s[i] && t[j] == s[j]);
                        } else if i < p {
                            assert(t[i] == s[i] && t[j] == s[j + 1]);
                        } else {
                            assert(t[i] == s[i + 1] && t[j] == s[j + 1]);
                        }
                    }
                }
                let m = pairs_to_map(t);
                let expected = pairs_to_map(s).remove(id);
                assert forall|k: u32| m.contains_key(k) <==> expected.contains_key(k) by {
                    if m.contains_key(k) {
                        let i = choose|i: int| 0 <= i < t.len() && (#[trigger] t[i]).0 == k;
                        if i < p {
                            assert(s[i].0 == k);
                        } else {
                            assert(s[i + 1].0 == k);
                            assert(s[p as int].0 < s[i + 1].0);
                        }
                    }
                    if expected.contains_key(k) {
                        let i = choose|i: int| 0 <= i < s.len() && (#[trigger] s[i]).0 == k;
                        if i < p {
                            assert(t[i].0 == k);
                        } else {
                            assert(i != p);
                            assert(t[i - 1].0 == k);
                        }
                    }
                }
                assert forall|k: u32| m.contains_key(k) implies m[k] == expected[k] by {
                    let i = choose|i: int| 0 <= i < t.len() && (#[trigger] t[i]).0 == k;
                    lemma_map_at(t, i);
                    if i < p {
                        lemma_map_at(s, i);
                    } else {
                        lemma_map_at(s, i + 1);
                    }
                }
                assert(m =~= expected);
            }
            self.entries = entries;
        } else {
            proof {
                if self@.contains_key(id) {
                    let i = choose|i: int| 0 <= i < s.len() && (#[trigger] s[i]).0 == id;
                    if i > p {
                        assert(s[p as int].0 < s[i].0);
                    }
                }
                assert(self@ =~= old(self)@.remove(id));
            }
        }
    }

    /// Whether two maps hold the same transforms for the same triggers.
    pub fn same_as(&self, other: &TransformMap) -> (r: bool)
        ensures
            r == (self@ == other@),
    {
        proof {
            use_type_invariant(self);
            use_type_invariant(other);
        }
        if self.entries.len() != other.entries.len() {
            proof {
                self.lemma_len();
                other.lemma_len();
            }
            return false;
        }
        let mut i: usize = 0;
        while i < self.entries.len()
            invariant
                0 <= i <= self.entries@.len(),
                self.entries@.len() == other.entries@.len(),
                keys_increasing(self.entries@),
                keys_increasing(other.entries@),
                forall|j: int| 0 <= j < i ==> self.entries@[j] == other.entries@[j],
            decreases self.entries@.len() - i,
        {
            if self.entries[i].0 != other.entries[i].0 || self.entries[i].1 != other.entries[i].1 {
                proof {
                    Self::lemma_first_difference(self.entries@, other.entries@, i as int);
                }
                return false;
            }
            i += 1;
        }
        proof {
            assert(self.entries@ =~= other.entries@);
        }
        true
    }

    /// Two ordered sequences of the same length that first differ at `i` stand for different maps.
    proof fn lemma_first_difference(s: Seq<(u32, LoopTransform)>, t: Seq<(u32, LoopTransform)>, i: int)
        requires
            keys_increasing(s),
            keys_increasing(t),
            s.len() == t.len(),
            0 <= i < s.len(),
            forall|j: int| 0 <= j < i ==> s[j] == t[j],
            s[i] != t[i],
        ensures
            pairs_to_map(s) != pairs_to_map(t),
    {
        lemma_map_at(s, i);
        lemma_map_at(t, i);
        if s[i].0 == t[i].0 {
            assert(pairs_to_map(s)[s[i].0] != pairs_to_map(t)[s[i].0]);
        } else if s[i].0 < t[i].0 {
            // s[i]'s key appears in s but nowhere in t.
            let k = s[i].0;
            if pairs_to_map(t).contains_key(k) {
                let j = choose|j: int| 0 <= j < t.len() && (#[trigger] t[j]).0 == k;
                if j < i {
                    assert(s[j].0 == k);
                    assert(s[j].0 < s[i].0);
                } else if j > i {
                    assert(t[i].0 < t[j].0);
                }
            }
        } else {
            let k = t[i].0;
            if pairs_to_map(s).contains_key(k) {
                let j = choose|j: int| 0 <= j < s.len() && (#[trigger] s[j]).0 == k;
                if j < i {
                    assert(t[j].0 == k);
                    assert(t[j].0 < t[i].0);
                } else if j > i {
                    assert(s[i].0 < s[j].0);
                }
            }
        }
    }
}

} // verus!
