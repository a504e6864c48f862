use vstd::prelude::*;

use crate::midi_time::MidiTime;
use crate::transform_map::{lookup, TransformMap};
use std::collections::HashSet;
use vstd::std_specs::iter::IteratorSpec;

verus! {

/// Longest undo plus redo history that offsets can address.
pub const HISTORY_LIMIT: usize = 0x4000_0000;

/// A loop: its length and the transform applied to each trigger.
#[derive(Debug)]
pub struct LoopCollection {
    pub length: MidiTime,
    pub transforms: TransformMap,
}

/// Two loops that play the same.
pub open spec fn same_loop(a: LoopCollection, b: LoopCollection) -> bool {
    a.length == b.length && a.transforms@ == b.transforms@
}

/// Whether two loops disagree on the transform of any of the selected triggers.
pub open spec fn differs_on(a: LoopCollection, b: LoopCollection, selection: Set<u32>) -> bool {
    exists|id: u32| selection.contains(id) && lookup(a.transforms@, id) != lookup(b.transforms@, id)
}

impl Clone for LoopCollection {
    fn clone(&self) -> (r: LoopCollection)
        ensures
            same_loop(r, *self),
    {
        LoopCollection { length: self.length, transforms: self.transforms.clone() }
    }
}

impl LoopCollection {
    /// An empty loop of the given length.
    pub fn new(length: MidiTime) -> (r: LoopCollection)
        ensures
            r.length == length,
            r.transforms@ == Map::<u32, crate::loop_transform::LoopTransform>::empty(),
    {
        LoopCollection { length, transforms: TransformMap::new() }
    }

    /// Whether the two loops play the same.
    pub fn same_as(&self, other: &LoopCollection) -> (r: bool)
        ensures
            r == same_loop(*self, *other),
    {
        self.length == other.length && self.transforms.same_as(&other.transforms)
    }
}

/// Which way the loop history moved.
#[derive(Debug, Copy, Clone, PartialEq, Eq, Structural)]
pub enum LoopStateChange {
    Undo,
    Redo,
    SetLoop,
}

/// The abstract state of a loop history.
pub struct HistoryModel {
    pub frozen: bool,
    pub override_loop: Option<LoopCollection>,
    pub undos: Seq<LoopCollection>,
    pub redos: Seq<LoopCollection>,
    pub changes: Seq<LoopStateChange>,
}

/// The loop that plays: the one set while frozen, else the latest one kept.
pub open spec fn current(m: HistoryModel) -> LoopCollection {
    match m.override_loop {
        Some(o) => o,
        None => m.undos.last(),
    }
}

/// The effect of setting a loop.
pub open spec fn model_set(m: HistoryModel, value: LoopCollection) -> HistoryModel {
    if same_loop(current(m), value) {
        m
    } else if m.frozen {
        HistoryModel { override_loop: Some(value), changes: m.changes.push(LoopStateChange::SetLoop), ..m }
    } else {
        HistoryModel { undos: m.undos.push(value), changes: m.changes.push(LoopStateChange::SetLoop), ..m }
    }
}

/// The effect of freezing: later sets are held aside instead of kept.
pub open spec fn model_freeze(m: HistoryModel) -> HistoryModel {
    HistoryModel { frozen: true, ..m }
}

/// The effect of unfreezing: what was set while frozen is dropped.
pub open spec fn model_unfreeze(m: HistoryModel) -> HistoryModel {
    HistoryModel {
        frozen: false,
        override_loop: None,
        changes: if m.override_loop is Some { m.changes.push(LoopStateChange::SetLoop) } else { m.changes },
        ..m
    }
}

/// The effect of undo.
pub open spec fn model_undo(m: HistoryModel) -> HistoryModel {
    if m.override_loop is Some {
        HistoryModel { override_loop: None, changes: m.changes.push(LoopStateChange::Undo), ..m }
    } else if m.undos.len() > 1 {
        HistoryModel {
            undos: m.undos.drop_last(),
            redos: m.redos.push(m.undos.last()),
            changes: m.changes.push(LoopStateChange::Undo),
            ..m
        }
    } else {
        m
    }
}

/// The effect of redo.
pub open spec fn model_redo(m: HistoryModel) -> HistoryModel {
    if m.override_loop is Some {
        HistoryModel { override_loop: None, changes: m.changes.push(LoopStateChange::Redo), ..m }
    } else if m.redos.len() > 0 {
        HistoryModel {
            undos: m.undos.push(m.redos.last()),
            redos: m.redos.drop_last(),
            changes: m.changes.push(LoopStateChange::Redo),
            ..m
        }
    } else {
        m
    }
}

/// The loop `offset` steps away from the current one (negative: back through the undo
/// history, positive: forward through the redo history). Neither end entry of a history is
/// reachable this way.
pub open spec fn model_retrieve(m: HistoryModel, offset: int) -> Option<LoopCollection> {
    if offset < 0 {
        let r = m.undos.len() - 1 + offset;
        if r > 0 {
            Some(m.undos[r])
        } else {
            None
        }
    } else if offset > 0 {
        let r = m.redos.len() - 1 - offset;
        if r > 0 {
            Some(m.redos[r])
        } else {
            None
        }
    } else {
        Some(current(m))
    }
}

/// The history of loops, with undo, redo, and freezing.
pub struct LoopState {
    changes: Vec<LoopStateChange>,
    frozen: bool,
    override_loop: Option<LoopCollection>,
    undos: Vec<LoopCollection>,
    redos: Vec<LoopCollection>,
}

impl View for LoopState {
    type V = HistoryModel;

    closed spec fn view(&self) -> HistoryModel {
        HistoryModel {
            frozen: self.frozen,
            override_loop: self.override_loop,
            undos: self.undos@,
            redos: self.redos@,
            changes: self.changes@,
        }
    }
}

/// A history that the state can be in: at least one kept loop, and offsets that fit.
pub open spec fn history_ok(m: HistoryModel) -> bool {
    &&& m.undos.len() >= 1
    &&& m.undos.len() + m.redos.len() < HISTORY_LIMIT
    &&& m.override_loop is Some ==> m.frozen
}

impl LoopState {
    /// How many loops the history keeps, behind and ahead.
    pub fn history_len(&self) -> (r: usize)
        requires
            history_ok(self@),
        ensures
            r == self@.undos.len() + self@.redos.len(),
    {
        self.undos.len() + self.redos.len()
    }

    /// A history holding only an empty loop of the given length.
    pub fn new(default_length: MidiTime) -> (r: LoopState)
        ensures
            r@.undos.len() == 1,
            r@.undos[0].length == default_length,
            r@.undos[0].transforms@ == Map::<u32, crate::loop_transform::LoopTransform>::empty(),
            r@.redos.len() == 0,
            r@.override_loop is None,
            !r@.frozen,
            r@.changes.len() == 0,
            history_ok(r@),
    {
        let default_loop = LoopCollection::new(default_length);
        let mut undos = Vec::new();
        undos.push(default_loop);
        LoopState { changes: Vec::new(), frozen: false, override_loop: None, undos, redos: Vec::new() }
    }

    /// The loop that plays.
    pub fn get(&self) -> (r: &LoopCollection)
        requires
            history_ok(self@),
        ensures
            *r == current(self@),
    {
        match &self.override_loop {
            Some(o) => o,
            None => {
                let n = self.undos.len();
                &self.undos[n - 1]
            },
        }
    }

    /// The loop `offset` steps away from the current one.
    pub fn retrieve(&self, offset: isize) -> (r: Option<&LoopCollection>)
        requires
            history_ok(self@),
        ensures
            r == match model_retrieve(self@, offset as int) {
                Some(c) => Some(&c),
                None => None,
            },
    {
        if offset < 0 {
            let resolved = self.undos.len() as i128 - 1 + offset as i128;
            if resolved > 0 {
                Some(&self.undos[resolved as usize])
            } else {
                None
            }
        } else if offset > 0 {
            let resolved = self.redos.len() as i128 - 1 - offset as i128;
            if resolved > 0 {
                Some(&self.redos[resolved as usize])
            } else {
                None
            }
        } else {
            Some(self.get())
        }
    }

    /// Whether sets are being held aside.
    pub fn is_frozen(&self) -> (r: bool)
        ensures
            r == self@.frozen,
    {
        self.frozen
    }

    /// Keeps a new loop (or holds it aside while frozen); setting the loop that already
    /// plays changes nothing.
    pub fn set(&mut self, value: LoopCollection)
        requires
            history_ok(old(self)@),
            old(self)@.undos.len() + old(self)@.redos.len() + 1 < HISTORY_LIMIT,
        ensures
            final(self)@ == model_set(old(self)@, value),
            history_ok(final(self)@),
    {
        if self.get().same_as(&value) {
            return;
        }
        if self.frozen {
            self.override_loop = Some(value);
        } else {
            let mut undos: Vec<LoopCollection> = Vec::new();
            std::mem::swap(&mut undos, &mut self.undos);
            undos.push(value);
            self.undos = undos;
        }
        self.on_change(LoopStateChange::SetLoop);
    }

    /// Starts holding sets aside.
    pub fn freeze(&mut self)
        requires
            history_ok(old(self)@),
        ensures
            final(self)@ == model_freeze(old(self)@),
            history_ok(final(self)@),
    {
        self.frozen = true;
    }

    /// Stops holding sets aside and drops what was held.
    pub fn unfreeze(&mut self)
        requires
            history_ok(old(self)@),
        ensures
            final(self)@ == model_unfreeze(old(self)@),
            history_ok(final(self)@),
    {
        self.frozen = false;
        let had_loop = self.override_loop.is_some();
        self.override_loop = None;
        if had_loop {
            self.on_change(LoopStateChange::SetLoop);
        }
    }

    /// Steps back: drops what was held while frozen, or moves the latest kept loop onto
    /// the redo history (the first loop is never undone).
    pub fn undo(&mut self)
        requires
            history_ok(old(self)@),
        ensures
            final(self)@ == model_undo(old(self)@),
            history_ok(final(self)@),
    {
        if self.override_loop.is_some() {
            self.override_loop = None;
            self.on_change(LoopStateChange::Undo);
        } else if self.undos.len() > 1 {
            let mut undos: Vec<LoopCollection> = Vec::new();
            std::mem::swap(&mut undos, &mut self.undos);
            let value = undos.pop().unwrap();
            let mut redos: Vec<LoopCollection> = Vec::new();
            std::mem::swap(&mut redos, &mut self.redos);
            redos.push(value);
            self.undos = undos;
            self.redos = redos;
            self.on_change(LoopStateChange::Undo);
        }
    }

    /// Steps forward: drops what was held while frozen, or moves the latest undone loop
    /// back onto the undo history.
    pub fn redo(&mut self)
        requires
            history_ok(old(self)@),
        ensures
            final(self)@ == model_redo(old(self)@),
            history_ok(final(self)@),
    {
        if self.override_loop.is_some() {
            self.override_loop = None;
            self.on_change(LoopStateChange::Redo);
        } else if self.redos.len() > 0 {
            let mut redos: Vec<LoopCollection> = Vec::new();
            std::mem::swap(&mut redos, &mut self.redos);
            let value = redos.pop().unwrap();
            let mut undos: Vec<LoopCollection> = Vec::new();
            std::mem::swap(&mut undos, &mut self.undos);
            undos.push(value);
            self.undos = undos;
            self.redos = redos;
            self.on_change(LoopStateChange::Redo);
        }
    }

    /// Records a change for whoever follows the history.
    fn on_change(&mut self, change: LoopStateChange)
        ensures
            final(self)@ == (HistoryModel { changes: old(self)@.changes.push(change), ..old(self)@ }),
    {
        let mut changes: Vec<LoopStateChange> = Vec::new();
        std::mem::swap(&mut changes, &mut self.changes);
        changes.push(change);
        self.changes = changes;
    }

    /// Takes the oldest change not yet taken.
    pub fn next_change(&mut self) -> (r: Option<LoopStateChange>)
        ensures
            old(self)@.changes.len() == 0 ==> r is None && final(self)@ == old(self)@,
            old(self)@.changes.len() > 0 ==> r == Some(old(self)@.changes[0])
                && final(self)@ == (HistoryModel { changes: old(self)@.changes.drop_first(), ..old(self)@ }),
    {
        if self.changes.len() == 0 {
            None
        } else {
            let mut changes: Vec<LoopStateChange> = Vec::new();
            std::mem::swap(&mut changes, &mut self.changes);
            let c = changes.remove(0);
            self.changes = changes;
            proof {
                assert(self.changes@ =~= old(self)@.changes.drop_first());
            }
            Some(c)
        }
    }

    /// Offset of the nearest loop after `current_offset` (towards the redo end) whose
    /// transforms differ from the loop at `current_offset` for any selected trigger.
    pub fn next_index_for(&self, current_offset: isize, selection: &HashSet<u32>) -> (r: Option<isize>)
        requires
            history_ok(self@),
        ensures
            search_result(self@, current_offset as int, 1, selection@, r),
    {
        if current_offset < -(HISTORY_LIMIT as isize) || current_offset > HISTORY_LIMIT as isize {
            proof {
                if model_retrieve(self@, current_offset as int) is Some {
                    lemma_retrieve_range(self@, current_offset as int);
                }
            }
            return None;
        }
        self.index_from(current_offset, 1, selection)
    }

    /// The same search towards the undo end.
    pub fn previous_index_for(&self, current_offset: isize, selection: &HashSet<u32>) -> (r: Option<isize>)
        requires
            history_ok(self@),
        ensures
            search_result(self@, current_offset as int, -1, selection@, r),
    {
        if current_offset < -(HISTORY_LIMIT as isize) || current_offset > HISTORY_LIMIT as isize {
            proof {
                if model_retrieve(self@, current_offset as int) is Some {
                    lemma_retrieve_range(self@, current_offset as int);
                }
            }
            return None;
        }
        self.index_from(current_offset, -1, selection)
    }

    fn index_from(&self, current_offset: isize, request_offset: isize, selection: &HashSet<u32>) -> (r: Option<isize>)
        requires
            history_ok(self@),
            request_offset == 1 || request_offset == -1,
            -(HISTORY_LIMIT as int) <= current_offset <= HISTORY_LIMIT as int,
        ensures
            search_result(self@, current_offset as int, request_offset as int, selection@, r),
    {
        let ghost m = self@;
        let ghost step = request_offset as int;
        let ghost c0 = current_offset as int;
        match self.retrieve(current_offset) {
            None => None,
            Some(start_item) => {
                let mut item = Some(start_item);
                let mut offset = current_offset;
                while item.is_some()
                    invariant
                        history_ok(m),
                        m == self@,
                        step == request_offset,
                        c0 == current_offset as int,
                        request_offset == 1 || request_offset == -1,
                        model_retrieve(m, c0) == Some(*start_item),
                        item == match model_retrieve(m, offset as int) {
                            Some(c) => Some(&c),
                            None => None,
                        },
                        offset as int == c0 || beyond(c0, offset as int, step),
                        -(HISTORY_LIMIT as int) - 2 <= offset <= HISTORY_LIMIT as int + 2,
                        agrees_until(m, c0, offset as int, step, selection@),
                    decreases
                            if request_offset > 0 { HISTORY_LIMIT as int + 3 - offset } else { offset + HISTORY_LIMIT as int + 3 },
                {
                    let it = item.unwrap();
                    if differs(start_item, it, selection) {
                        proof {
                            if offset as int == c0 {
                                assert(*it == *start_item);
                                assert(!differs_on(*start_item, *start_item, selection@));
                            }
                            assert(model_retrieve(m, offset as int) == Some(*it));
                            assert(differs_on(model_retrieve(m, c0)->0, model_retrieve(m, offset as int)->0, selection@));
                            assert(search_result(m, c0, step, selection@, Some(offset)));
                        }
                        return Some(offset);
                    }
                    proof {
                        lemma_retrieve_range(m, offset as int);
                        let next = offset as int + step;
                        assert forall|j: int| (j == c0 || beyond(c0, j, step)) && beyond(j, next, step)
                            implies #[trigger] model_retrieve(m, j) is Some
                                && !differs_on(model_retrieve(m, c0)->0, model_retrieve(m, j)->0, selection@) by {
                            if j != offset as int {
                                assert(beyond(j, offset as int, step));
                            }
                        }
                    }
                    offset = offset + request_offset;
                    item = self.retrieve(offset);
                }
                proof {
                    assert(model_retrieve(m, offset as int) is None);
                    assert(offset as int != c0);
                    assert(search_result(m, c0, step, selection@, None::<isize>));
                }
                None
            },
        }
    }
}

/// Offsets at which the history holds a loop are bounded by the history sizes.
pub proof fn lemma_retrieve_range(m: HistoryModel, offset: int)
    requires
        history_ok(m),
        model_retrieve(m, offset) is Some,
    ensures
        -(HISTORY_LIMIT as int) < offset < HISTORY_LIMIT as int,
{
}

/// `b` lies strictly beyond `a` when moving in direction `step`.
pub open spec fn beyond(a: int, b: int, step: int) -> bool {
    if step > 0 {
        a < b
    } else {
        b < a
    }
}

/// Every offset from `start` up to (not including) `end`, moving in direction `step`,
/// holds a loop that agrees on the selection with the loop at `start`.
pub open spec fn agrees_until(m: HistoryModel, start: int, end: int, step: int, selection: Set<u32>) -> bool {
    forall|j: int| (j == start || beyond(start, j, step)) && beyond(j, end, step)
        ==> #[trigger] model_retrieve(m, j) is Some
            && !differs_on(model_retrieve(m, start)->0, model_retrieve(m, j)->0, selection)
}

/// What a search from `start` in direction `step` reports: the first offset, moving one
/// step at a time while the history holds loops, whose loop differs on the selection from
/// the loop at `start`; or none, if the loops run out (or there is none at `start`) first.
pub open spec fn search_result(m: HistoryModel, start: int, step: int, selection: Set<u32>, r: Option<isize>) -> bool {
    match r {
        Some(o) => {
            &&& model_retrieve(m, start) is Some
            &&& beyond(start, o as int, step)
            &&& model_retrieve(m, o as int) is Some
            &&& differs_on(model_retrieve(m, start)->0, model_retrieve(m, o as int)->0, selection)
            &&& agrees_until(m, start, o as int, step, selection)
        },
        None => {
            ||| model_retrieve(m, start) is None
            ||| exists|end: int| {
                &&& beyond(start, end, step)
                &&& #[trigger] model_retrieve(m, end) is None
                &&& agrees_until(m, start, end, step, selection)
            }
        },
    }
}

/// Whether the two loops disagree on the transform of any selected trigger.
fn differs(a: &LoopCollection, b: &LoopCollection, selection: &HashSet<u32>) -> (r: bool)
    ensures
        r == differs_on(*a, *b, selection@),
{
    broadcast use vstd::std_specs::hash::group_hash_axioms;
    let ghost all = selection.iter().remaining();
    for id in it: selection.iter()
        invariant
            it.seq() == all,
            all.unref().to_set() == selection@,
            forall|k: int| 0 <= k < it.index() ==> lookup(a.transforms@, *(#[trigger] all[k])) == lookup(b.transforms@, *all[k]),
    {
        if a.transforms.get(*id) != b.transforms.get(*id) {
            proof {
                assert(all.unref().to_set().contains(*id));
            }
            return true;
        }
    }
    proof {
        assert forall|x: u32| selection@.contains(x) implies lookup(a.transforms@, x) == lookup(b.transforms@, x) by {
            assert(all.unref().to_set().contains(x));
            let k = choose|k: int| 0 <= k < all.unref().len() && all.unref()[k] == x;
            assert(*all[k] == x);
        }
    }
    false
}

/// Undo after setting a new loop brings back the loop that played before, and redo then
/// brings the new loop back.
pub proof fn law_undo_reverts_set(m: HistoryModel, value: LoopCollection)
    requires
        history_ok(m),
        !m.frozen,
        !same_loop(current(m), value),
    ensures
        current(model_undo(model_set(m, value))) == current(m),
        current(model_redo(model_undo(model_set(m, value)))) == value,
        model_undo(model_set(m, value)).undos == m.undos,
        model_set(m, value).changes == m.changes.push(LoopStateChange::SetLoop),
        model_undo(model_set(m, value)).changes == m.changes.push(LoopStateChange::SetLoop).push(LoopStateChange::Undo),
{
    let a = model_set(m, value);
    assert(a.undos.drop_last() =~= m.undos);
}

/// Redo right after an undo restores both histories.
pub proof fn law_redo_reverts_undo(m: HistoryModel)
    requires
        history_ok(m),
        !m.frozen,
        m.undos.len() > 1,
    ensures
        model_redo(model_undo(m)).undos == m.undos,
        model_redo(model_undo(m)).redos == m.redos,
        current(model_redo(model_undo(m))) == current(m),
{
    let a = model_undo(m);
    assert(a.undos.push(a.redos.last()) =~= m.undos);
    assert(a.redos.drop_last() =~= m.redos);
}

/// A loop set while frozen is dropped on unfreezing: the histories and the playing loop
/// are as they were before freezing.
pub proof fn law_frozen_sets_are_dropped(m: HistoryModel, value: LoopCollection)
    requires
        history_ok(m),
        !m.frozen,
    ensures
        model_unfreeze(model_set(model_freeze(m), value)).undos == m.undos,
        model_unfreeze(model_set(model_freeze(m), value)).redos == m.redos,
        current(model_unfreeze(model_set(model_freeze(m), value))) == current(m),
        !model_unfreeze(model_set(model_freeze(m), value)).frozen,
{
}

/// Setting the loop that already plays changes nothing and reports nothing.
pub proof fn law_set_current_is_noop(m: HistoryModel, value: LoopCollection)
    requires
        same_loop(current(m), value),
    ensures
        model_set(m, value) == m,
{
}

/// The first kept loop can never be undone.
pub proof fn law_first_loop_stays(m: HistoryModel)
    requires
        history_ok(m),
    ensures
        model_undo(m).undos.len() >= 1,
        model_undo(m).undos[0] == m.undos[0],
{
}

/// Only freeze and unfreeze change whether the history is frozen: a new history is not,
/// freezing makes it so, unfreezing undoes it, and set, undo and redo leave it as it was.
pub proof fn law_only_freezing_freezes(m: HistoryModel, value: LoopCollection)
    ensures
        model_freeze(m).frozen,
        !model_unfreeze(m).frozen,
        model_set(m, value).frozen == m.frozen,
        model_undo(m).frozen == m.frozen,
        model_redo(m).frozen == m.frozen,
{
}

/// A set does not clear the redo history: after setting, undoing and setting again, redo
/// brings back the first loop set.
pub proof fn law_set_keeps_redos(m: HistoryModel, a: LoopCollection, b: LoopCollection)
    requires
        history_ok(m),
        !m.frozen,
        !same_loop(current(m), a),
        !same_loop(current(m), b),
    ensures
        current(model_redo(model_set(model_undo(model_set(m, a)), b))) == a,
{
    let u = model_undo(model_set(m, a));
    assert(u.undos.last() == current(m));
}

/// Undo on a history that holds only its first loop, with nothing held aside, changes
/// nothing and reports nothing; so does redo with nothing to redo.
pub proof fn law_nothing_to_undo(m: HistoryModel)
    requires
        history_ok(m),
        m.override_loop is None,
    ensures
        m.undos.len() == 1 ==> model_undo(m) == m,
        m.redos.len() == 0 ==> model_redo(m) == m,
{
}

} // verus!
