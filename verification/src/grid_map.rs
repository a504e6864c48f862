use vstd::prelude::*;

use crate::chunk::{Coords, LatchMode, MidiMap, RepeatMode, Shape};
use crate::config::{ChunkConfig, Config};
use std::collections::HashMap;
use std::collections::HashSet;
use vstd::arithmetic::div_mod::lemma_fundamental_div_mod_converse;
use vstd::std_specs::iter::IteratorSpec;

verus! {

/// A chunk as the grid lays it out: where it sits, how its triggers latch, how it follows
/// the repeat, whether its held triggers escape suppression, and which of its triggers (by
/// their number within the chunk) play with straight timing.
pub struct ChunkPlacement {
    pub coords: Coords,
    pub shape: Shape,
    pub latch_mode: LatchMode,
    pub repeat_mode: RepeatMode,
    pub no_suppress_held: bool,
    pub straight_timing_local_ids: Vec<u32>,
}

/// What the grid learns from its chunks: the chunk and trigger behind each grid cell,
/// the triggers that are never suppressed, those not suppressed while held, and those
/// that play with straight timing.
pub struct GridMapping {
    pub mapping: HashMap<u32, MidiMap>,
    pub no_suppress: HashSet<u32>,
    pub no_suppress_held: HashSet<u32>,
    pub straight_timing_ids: HashSet<u32>,
}

/// Whether a chunk covers the cell at a row and column.
pub open spec fn covers_cell(p: ChunkPlacement, row: int, col: int) -> bool {
    &&& p.coords.row <= row < p.coords.row + p.shape.rows
    &&& p.coords.col <= col < p.coords.col + p.shape.cols
}

/// The number of a cell within its chunk, counted row by row.
pub open spec fn local_index(p: ChunkPlacement, row: int, col: int) -> int {
    (row - p.coords.row) * p.shape.cols + (col - p.coords.col)
}

/// The trigger id of the `k`-th cell of a chunk (its row times eight plus its column).
pub open spec fn trigger_at(p: ChunkPlacement, k: int) -> int {
    (p.coords.row + k / (p.shape.cols as int)) * 8 + p.coords.col + k % (p.shape.cols as int)
}

/// The trigger ids of a chunk's cells.
pub open spec fn chunk_triggers(p: ChunkPlacement) -> Set<u32> {
    Set::new(|id: u32| exists|row: int, col: int| #[trigger] covers_cell(p, row, col) && id == row * 8 + col)
}

/// The grid cells of chunk `index`, by grid id: the cells of the eight grid columns that
/// it covers, each with its number within the chunk.
pub open spec fn chunk_cells(p: ChunkPlacement, index: int) -> Map<u32, MidiMap> {
    Map::new(
        |id: u32| covers_cell(p, id as int / 8, id as int % 8),
        |id: u32| MidiMap { chunk_index: index as usize, id: local_index(p, id as int / 8, id as int % 8) as u32 },
    )
}

/// The cells of a list of chunks; where chunks overlap, the later one has the cell.
pub open spec fn placed_cells(ps: Seq<ChunkPlacement>) -> Map<u32, MidiMap>
    decreases ps.len(),
{
    if ps.len() == 0 {
        Map::empty()
    } else {
        placed_cells(ps.drop_last()).union_prefer_right(chunk_cells(ps.last(), ps.len() - 1))
    }
}

/// The triggers of the chunks that pass a test.
pub open spec fn triggers_where(ps: Seq<ChunkPlacement>, test: spec_fn(ChunkPlacement) -> bool) -> Set<u32> {
    Set::new(|id: u32| exists|i: int| 0 <= i < ps.len() && test(ps[i]) && #[trigger] chunk_triggers(ps[i]).contains(id))
}

/// Whether a chunk's triggers are never suppressed.
pub open spec fn never_suppressed(p: ChunkPlacement) -> bool {
    p.latch_mode == LatchMode::NoSuppress
}

/// Whether a chunk's held triggers are not suppressed.
pub open spec fn held_unsuppressed(p: ChunkPlacement) -> bool {
    p.repeat_mode == RepeatMode::OnlyQuant || p.no_suppress_held
}

/// The triggers with straight timing: the listed cells of each chunk that has them.
pub open spec fn straight_triggers(ps: Seq<ChunkPlacement>) -> Set<u32> {
    Set::new(|id: u32| exists|i: int, j: int| {
        &&& 0 <= i < ps.len()
        &&& 0 <= j < ps[i].straight_timing_local_ids@.len()
        &&& ps[i].straight_timing_local_ids@[j] < ps[i].shape.rows * ps[i].shape.cols
        &&& id == #[trigger] trigger_at(ps[i], ps[i].straight_timing_local_ids@[j] as int)
    })
}

/// Whether a chunk's cells and trigger ids fit 32 bits.
pub open spec fn placement_fits(p: ChunkPlacement) -> bool {
    &&& (p.coords.row + p.shape.rows) * 8 + p.coords.col + p.shape.cols <= u32::MAX
    &&& p.shape.rows * p.shape.cols <= u32::MAX
}

fn place_chunk(acc: &mut GridMapping, p: &ChunkPlacement, index: usize)
    requires
        placement_fits(*p),
    ensures
        final(acc).mapping@ == old(acc).mapping@.union_prefer_right(chunk_cells(*p, index as int)),
        final(acc).no_suppress@ == old(acc).no_suppress@ + (if never_suppressed(*p) { chunk_triggers(*p) } else { Set::empty() }),
        final(acc).no_suppress_held@ == old(acc).no_suppress_held@ + (if held_unsuppressed(*p) { chunk_triggers(*p) } else { Set::empty() }),
        final(acc).straight_timing_ids@ == old(acc).straight_timing_ids@ + Set::new(|id: u32| exists|j: int| {
            &&& 0 <= j < p.straight_timing_local_ids@.len()
            &&& p.straight_timing_local_ids@[j] < p.shape.rows * p.shape.cols
            &&& id == #[trigger] trigger_at(*p, p.straight_timing_local_ids@[j] as int)
        }),
{
    broadcast use vstd::std_specs::hash::group_hash_axioms;
    let ghost m0 = acc.mapping@;
    let r0 = p.coords.row;
    let c0 = p.coords.col;
    let rows = p.shape.rows;
    let cols = p.shape.cols;
    let mut trigger_ids: Vec<u32> = Vec::new();
    let mut cells: HashMap<u32, MidiMap> = HashMap::new();
    let mut count: u32 = 0;
    let mut row = r0;
    while row < r0 + rows
        invariant
            placement_fits(*p),
            r0 == p.coords.row,
            c0 == p.coords.col,
            rows == p.shape.rows,
            cols == p.shape.cols,
            r0 <= row <= r0 + rows,
            count == (row - r0) * cols,
            trigger_ids@.len() == count,
            forall|k: int| 0 <= k < count ==> #[trigger] trigger_ids@[k] == trigger_at(*p, k),
            forall|id: u32| #[trigger] cells@.contains_key(id) <==> covers_cell(*p, id as int / 8, id as int % 8) && id / 8 < row,
            forall|id: u32| #[trigger] cells@.contains_key(id) ==> cells@[id] == chunk_cells(*p, index as int)[id],
            forall|id: u32| #[trigger] trigger_ids@.contains(id) <==> exists|r: int, c: int|
                #[trigger] covers_cell(*p, r, c) && r < row && id == r * 8 + c,
        decreases r0 + rows - row,
    {
        let mut col = c0;
        while col < c0 + cols
            invariant
                placement_fits(*p),
                r0 == p.coords.row,
                c0 == p.coords.col,
                rows == p.shape.rows,
                cols == p.shape.cols,
                r0 <= row < r0 + rows,
                c0 <= col <= c0 + cols,
                count == (row - r0) * cols + (col - c0),
                trigger_ids@.len() == count,
                forall|k: int| 0 <= k < count ==> #[trigger] trigger_ids@[k] == trigger_at(*p, k),
                forall|id: u32| #[trigger] cells@.contains_key(id) <==> covers_cell(*p, id as int / 8, id as int % 8) && (id / 8 < row
                    || (id / 8 == row && id % 8 < col)),
                forall|id: u32| #[trigger] cells@.contains_key(id) ==> cells@[id] == chunk_cells(*p, index as int)[id],
                forall|id: u32| #[trigger] trigger_ids@.contains(id) <==> exists|r: int, c: int|
                    #[trigger] covers_cell(*p, r, c) && (r < row || (r == row && c < col)) && id == r * 8 + c,
            decreases c0 + cols - col,
        {
            let ghost k = count as int;
            proof {
                assert((row - r0) * cols + (col - c0) < rows * cols) by (nonlinear_arith)
                    requires
                        row - r0 < rows,
                        col - c0 < cols,
                        0 <= row - r0,
                        0 <= col - c0;
                lemma_fundamental_div_mod_converse(k, cols as int, row - r0, col - c0);
            }
            let id = row * 8 + col;
            let ghost before = trigger_ids@;
            trigger_ids.push(id);
            if col < 8 {
                proof {
                    lemma_fundamental_div_mod_converse(id as int, 8, row as int, col as int);
                }
                cells.insert(id, MidiMap { chunk_index: index, id: count });
            }
            proof {
                assert forall|x: u32| #[trigger] trigger_ids@.contains(x) <==> exists|r: int, c: int|
                    #[trigger] covers_cell(*p, r, c) && (r < row || (r == row && c < col + 1)) && x == r * 8 + c by {
                    if trigger_ids@.contains(x) {
                        let j = choose|j: int| 0 <= j < trigger_ids@.len() && trigger_ids@[j] == x;
                        if j < before.len() {
                            assert(before.contains(x));
                        } else {
                            assert(covers_cell(*p, row as int, col as int));
                        }
                    }
                    if exists|r: int, c: int| #[trigger] covers_cell(*p, r, c) && (r < row || (r == row && c < col + 1)) && x == r * 8 + c {
                        let (r, c) = choose|r: int, c: int| #[trigger] covers_cell(*p, r, c) && (r < row || (r == row && c < col + 1)) && x == r * 8 + c;
                        if r < row || c < col {
                            assert(before.contains(x));
                            let j = choose|j: int| 0 <= j < before.len() && before[j] == x;
                            assert(trigger_ids@[j] == x);
                        } else {
                            assert(trigger_ids@[before.len() as int] == x);
                        }
                    }
                }
                assert forall|x: u32| #[trigger] cells@.contains_key(x) <==> covers_cell(*p, x as int / 8, x as int % 8) && (x / 8 < row
                    || (x / 8 == row && x % 8 < col + 1)) by {
                    if x == id && col < 8 {
                        lemma_fundamental_div_mod_converse(id as int, 8, row as int, col as int);
                    }
                }
            }
            count = count + 1;
            col = col + 1;
        }
        proof {
            assert((row - r0) * cols + cols == (row + 1 - r0) * cols) by (nonlinear_arith);
            assert forall|x: u32| #[trigger] cells@.contains_key(x) <==> covers_cell(*p, x as int / 8, x as int % 8) && x / 8 < row + 1 by {}
        }
        row = row + 1;
    }
    proof {
        assert(count == rows * cols);
        assert forall|x: u32| #[trigger] trigger_ids@.contains(x) <==> chunk_triggers(*p).contains(x) by {
            if chunk_triggers(*p).contains(x) {
                let (r, c) = choose|r: int, c: int| #[trigger] covers_cell(*p, r, c) && x == r * 8 + c;
                assert(covers_cell(*p, r, c) && r < row && x == r * 8 + c);
            }
        }
        assert(cells@ =~= chunk_cells(*p, index as int));
    }
    let mut i: usize = 0;
    while i < trigger_ids.len()
        invariant
            i <= trigger_ids@.len(),
            acc.mapping@ == m0,
            forall|x: u32| #[trigger] trigger_ids@.contains(x) <==> chunk_triggers(*p).contains(x),
            acc.no_suppress@ == old(acc).no_suppress@ + (if never_suppressed(*p) { Set::new(|x: u32| trigger_ids@.take(i as int).contains(x)) } else { Set::empty() }),
            acc.no_suppress_held@ == old(acc).no_suppress_held@ + (if held_unsuppressed(*p) { Set::new(|x: u32| trigger_ids@.take(i as int).contains(x)) } else { Set::empty() }),
            acc.straight_timing_ids@ == old(acc).straight_timing_ids@,
        decreases trigger_ids@.len() - i,
    {
        let t = trigger_ids[i];
        if p.latch_mode == LatchMode::NoSuppress {
            acc.no_suppress.insert(t);
        }
        if p.repeat_mode == RepeatMode::OnlyQuant || p.no_suppress_held {
            acc.no_suppress_held.insert(t);
        }
        proof {
            let prev = trigger_ids@.take(i as int);
            let next = trigger_ids@.take(i + 1);
            assert(next == prev.push(t));
            assert forall|x: u32| next.contains(x) <==> (prev.contains(x) || x == t) by {
                if next.contains(x) && x != t {
                    let j = choose|j: int| 0 <= j < next.len() && next[j] == x;
                    assert(prev[j] == x);
                }
                if prev.contains(x) {
                    let j = choose|j: int| 0 <= j < prev.len() && prev[j] == x;
                    assert(next[j] == x);
                }
                if x == t {
                    assert(next[i as int] == x);
                }
            }
            assert(Set::new(|x: u32| next.contains(x)) =~= Set::new(|x: u32| prev.contains(x)).insert(t));
            if never_suppressed(*p) {
                assert(acc.no_suppress@ =~= old(acc).no_suppress@ + Set::new(|x: u32| next.contains(x)));
            } else {
                assert(acc.no_suppress@ =~= old(acc).no_suppress@ + Set::<u32>::empty());
            }
            if held_unsuppressed(*p) {
                assert(acc.no_suppress_held@ =~= old(acc).no_suppress_held@ + Set::new(|x: u32| next.contains(x)));
            } else {
                assert(acc.no_suppress_held@ =~= old(acc).no_suppress_held@ + Set::<u32>::empty());
            }
        }
        i = i + 1;
    }
    proof {
        assert(trigger_ids@.take(trigger_ids@.len() as int) == trigger_ids@);
        assert(Set::new(|x: u32| trigger_ids@.contains(x)) =~= chunk_triggers(*p));
    }
    let ghost wanted = Set::new(|id: u32| exists|j: int| {
        &&& 0 <= j < p.straight_timing_local_ids@.len()
        &&& p.straight_timing_local_ids@[j] < p.shape.rows * p.shape.cols
        &&& id == #[trigger] trigger_at(*p, p.straight_timing_local_ids@[j] as int)
    });
    let ghost s0 = acc.straight_timing_ids@;
    let mut j: usize = 0;
    while j < p.straight_timing_local_ids.len()
        invariant
            j <= p.straight_timing_local_ids@.len(),
            trigger_ids@.len() == rows * cols,
            rows == p.shape.rows,
            cols == p.shape.cols,
            forall|k: int| 0 <= k < trigger_ids@.len() ==> #[trigger] trigger_ids@[k] == trigger_at(*p, k),
            acc.straight_timing_ids@ == s0 + Set::new(|id: u32| exists|q: int| {
                &&& 0 <= q < j
                &&& p.straight_timing_local_ids@[q] < p.shape.rows * p.shape.cols
                &&& id == #[trigger] trigger_at(*p, p.straight_timing_local_ids@[q] as int)
            }),
            acc.mapping@ == m0,
            acc.no_suppress@ == old(acc).no_suppress@ + (if never_suppressed(*p) { chunk_triggers(*p) } else { Set::empty() }),
            acc.no_suppress_held@ == old(acc).no_suppress_held@ + (if held_unsuppressed(*p) { chunk_triggers(*p) } else { Set::empty() }),
        decreases p.straight_timing_local_ids@.len() - j,
    {
        let local = p.straight_timing_local_ids[j];
        let ghost before = acc.straight_timing_ids@;
        if (local as usize) < trigger_ids.len() {
            let t = trigger_ids[local as usize];
            acc.straight_timing_ids.insert(t);
        }
        proof {
            let done = Set::new(|id: u32| exists|q: int| {
                &&& 0 <= q < j + 1
                &&& p.straight_timing_local_ids@[q] < p.shape.rows * p.shape.cols
                &&& id == #[trigger] trigger_at(*p, p.straight_timing_local_ids@[q] as int)
            });
            assert(acc.straight_timing_ids@ =~= s0 + done) by {
                assert forall|x: u32| acc.straight_timing_ids@.contains(x) == (s0 + done).contains(x) by {
                    if (local as int) < rows * cols && x == trigger_at(*p, local as int) {
                        assert(done.contains(x));
                    }
                    if done.contains(x) && !s0.contains(x) {
                        let q = choose|q: int| {
                            &&& 0 <= q < j + 1
                            &&& p.straight_timing_local_ids@[q] < p.shape.rows * p.shape.cols
                            &&& x == #[trigger] trigger_at(*p, p.straight_timing_local_ids@[q] as int)
                        };
                        if q < j {
                            assert(before.contains(x));
                        }
                    }
                }
            }
        }
        j = j + 1;
    }
    proof {
        assert(acc.straight_timing_ids@ =~= s0 + wanted);
    }
    let mut it: usize = 0;
    let keys = cells_keys(&cells);
    while it < keys.len()
        invariant
            it <= keys@.len(),
            keys@.to_set() == cells@.dom(),
            keys@.no_duplicates(),
            acc.mapping@ == m0.union_prefer_right(cells@.restrict(keys@.take(it as int).to_set())),
            acc.no_suppress@ == old(acc).no_suppress@ + (if never_suppressed(*p) { chunk_triggers(*p) } else { Set::empty() }),
            acc.no_suppress_held@ == old(acc).no_suppress_held@ + (if held_unsuppressed(*p) { chunk_triggers(*p) } else { Set::empty() }),
            acc.straight_timing_ids@ == s0 + wanted,
            s0 == old(acc).straight_timing_ids@,
            cells@ == chunk_cells(*p, index as int),
        decreases keys@.len() - it,
    {
        let key = keys[it];
        proof {
            assert(keys@.to_set().contains(key));
        }
        let value = *cells.get(&key).unwrap();
        acc.mapping.insert(key, value);
        proof {
            let prev = keys@.take(it as int);
            let next = keys@.take(it + 1);
            assert(next == prev.push(key));
            assert forall|x: u32| next.to_set().contains(x) <==> prev.to_set().insert(key).contains(x) by {
                if next.contains(x) && x != key {
                    let j = choose|j: int| 0 <= j < next.len() && next[j] == x;
                    assert(prev[j] == x);
                }
                if prev.contains(x) {
                    let j = choose|j: int| 0 <= j < prev.len() && prev[j] == x;
                    assert(next[j] == x);
                }
                if x == key {
                    assert(next[it as int] == x);
                }
            }
            assert(next.to_set() =~= prev.to_set().insert(key));
            assert(acc.mapping@ =~= m0.union_prefer_right(cells@.restrict(next.to_set())));
        }
        it = it + 1;
    }
    proof {
        assert(keys@.take(keys@.len() as int) == keys@);
        assert(cells@.restrict(keys@.to_set()) =~= cells@);
    }
}

fn cells_keys(cells: &HashMap<u32, MidiMap>) -> (r: Vec<u32>)
    ensures
        r@.to_set() == cells@.dom(),
        r@.no_duplicates(),
{
    broadcast use vstd::std_specs::hash::group_hash_axioms;
    let mut v: Vec<u32> = Vec::new();
    let entries_iter = cells.iter();
    let ghost all = entries_iter.remaining();
    assert(all.no_duplicates());
    for entry in it: entries_iter
        invariant
            it.seq() == all,
            all.no_duplicates(),
            forall|i: int| 0 <= i < all.len() ==> cells@.contains_key(*all[i].0) && cells@[*all[i].0] == *all[i].1,
            forall|k: u32| #[trigger] cells@.contains_key(k) ==> all.contains((&k, &cells@[k])),
            v@.len() == it.index(),
            forall|i: int| 0 <= i < it.index() ==> v@[i] == *all[i].0,
    {
        v.push(*entry.0);
    }
    proof {
        assert forall|a: int, b: int| 0 <= a < b < v@.len() implies v@[a] != v@[b] by {
            if v@[a] == v@[b] {
                assert(all[a] == all[b]);
            }
        }
        assert forall|k: u32| v@.to_set().contains(k) <==> cells@.dom().contains(k) by {
            if cells@.contains_key(k) {
                let i = choose|i: int| 0 <= i < all.len() && all[i] == (&k, &cells@[k]);
                assert(v@[i] == k);
            }
            if v@.to_set().contains(k) {
                let i = choose|i: int| 0 <= i < v@.len() && v@[i] == k;
                assert(cells@.contains_key(*all[i].0));
            }
        }
        assert(v@.to_set() =~= cells@.dom());
    }
    v
}

/// Lays chunks out on the grid, in order (a later chunk takes the cells it shares with an
/// earlier one).
pub fn place_chunks(acc: &mut GridMapping, chunks: &Vec<ChunkPlacement>)
    requires
        forall|i: int| 0 <= i < chunks@.len() ==> placement_fits(#[trigger] chunks@[i]),
    ensures
        final(acc).mapping@ == old(acc).mapping@.union_prefer_right(placed_cells(chunks@)),
        final(acc).no_suppress@ == old(acc).no_suppress@ + triggers_where(chunks@, |p: ChunkPlacement| never_suppressed(p)),
        final(acc).no_suppress_held@ == old(acc).no_suppress_held@ + triggers_where(chunks@, |p: ChunkPlacement| held_unsuppressed(p)),
        final(acc).straight_timing_ids@ == old(acc).straight_timing_ids@ + straight_triggers(chunks@),
{
    let mut i: usize = 0;
    while i < chunks.len()
        invariant
            i <= chunks@.len(),
            forall|k: int| 0 <= k < chunks@.len() ==> placement_fits(#[trigger] chunks@[k]),
            acc.mapping@ == old(acc).mapping@.union_prefer_right(placed_cells(chunks@.take(i as int))),
            acc.no_suppress@ == old(acc).no_suppress@ + triggers_where(chunks@.take(i as int), |p: ChunkPlacement| never_suppressed(p)),
            acc.no_suppress_held@ == old(acc).no_suppress_held@ + triggers_where(chunks@.take(i as int), |p: ChunkPlacement| held_unsuppressed(p)),
            acc.straight_timing_ids@ == old(acc).straight_timing_ids@ + straight_triggers(chunks@.take(i as int)),
        decreases chunks@.len() - i,
    {
        let ghost before = *acc;
        place_chunk(acc, &chunks[i], i);
        proof {
            let prev = chunks@.take(i as int);
            let next = chunks@.take(i + 1);
            assert(next.drop_last() =~= prev);
            assert(next.last() == chunks@[i as int]);
            assert(acc.mapping@ =~= old(acc).mapping@.union_prefer_right(placed_cells(next)));
            assert(acc.no_suppress@ =~= old(acc).no_suppress@ + triggers_where(next, |p: ChunkPlacement| never_suppressed(p))) by {
                assert forall|x: u32| acc.no_suppress@.contains(x) == (old(acc).no_suppress@ + triggers_where(next, |p: ChunkPlacement| never_suppressed(p))).contains(x) by {
                    if triggers_where(next, |p: ChunkPlacement| never_suppressed(p)).contains(x) {
                        let k = choose|k: int| 0 <= k < next.len() && never_suppressed(next[k]) && #[trigger] chunk_triggers(next[k]).contains(x);
                        if k < i {
                            assert(prev[k] == next[k]);
                            assert(triggers_where(prev, |p: ChunkPlacement| never_suppressed(p)).contains(x));
                        }
                    }
                    if triggers_where(prev, |p: ChunkPlacement| never_suppressed(p)).contains(x) {
                        let k = choose|k: int| 0 <= k < prev.len() && never_suppressed(prev[k]) && #[trigger] chunk_triggers(prev[k]).contains(x);
                        assert(next[k] == prev[k]);
                    }
                    if never_suppressed(chunks@[i as int]) && chunk_triggers(chunks@[i as int]).contains(x) {
                        assert(next[i as int] == chunks@[i as int]);
                    }
                }
            }
            assert(acc.no_suppress_held@ =~= old(acc).no_suppress_held@ + triggers_where(next, |p: ChunkPlacement| held_unsuppressed(p))) by {
                assert forall|x: u32| acc.no_suppress_held@.contains(x) == (old(acc).no_suppress_held@ + triggers_where(next, |p: ChunkPlacement| held_unsuppressed(p))).contains(x) by {
                    if triggers_where(next, |p: ChunkPlacement| held_unsuppressed(p)).contains(x) {
                        let k = choose|k: int| 0 <= k < next.len() && held_unsuppressed(next[k]) && #[trigger] chunk_triggers(next[k]).contains(x);
                        if k < i {
                            assert(prev[k] == next[k]);
                            assert(triggers_where(prev, |p: ChunkPlacement| held_unsuppressed(p)).contains(x));
                        }
                    }
                    if triggers_where(prev, |p: ChunkPlacement| held_unsuppressed(p)).contains(x) {
                        let k = choose|k: int| 0 <= k < prev.len() && held_unsuppressed(prev[k]) && #[trigger] chunk_triggers(prev[k]).contains(x);
                        assert(next[k] == prev[k]);
                    }
                    if held_unsuppressed(chunks@[i as int]) && chunk_triggers(chunks@[i as int]).contains(x) {
                        assert(next[i as int] == chunks@[i as int]);
                    }
                }
            }
            assert(acc.straight_timing_ids@ =~= old(acc).straight_timing_ids@ + straight_triggers(next)) by {
                assert forall|x: u32| acc.straight_timing_ids@.contains(x) == (old(acc).straight_timing_ids@ + straight_triggers(next)).contains(x) by {
                    if straight_triggers(next).contains(x) {
                        let (k, q) = choose|k: int, q: int| {
                            &&& 0 <= k < next.len()
                            &&& 0 <= q < next[k].straight_timing_local_ids@.len()
                            &&& next[k].straight_timing_local_ids@[q] < next[k].shape.rows * next[k].shape.cols
                            &&& x == #[trigger] trigger_at(next[k], next[k].straight_timing_local_ids@[q] as int)
                        };
                        if k < i {
                            assert(prev[k] == next[k]);
                            assert(straight_triggers(prev).contains(x));
                        }
                    }
                    if straight_triggers(prev).contains(x) {
                        let (k, q) = choose|k: int, q: int| {
                            &&& 0 <= k < prev.len()
                            &&& 0 <= q < prev[k].straight_timing_local_ids@.len()
                            &&& prev[k].straight_timing_local_ids@[q] < prev[k].shape.rows * prev[k].shape.cols
                            &&& x == #[trigger] trigger_at(prev[k], prev[k].straight_timing_local_ids@[q] as int)
                        };
                        assert(next[k] == prev[k]);
                    }
                }
            }
        }
        i = i + 1;
    }
    proof {
        assert(chunks@.take(chunks@.len() as int) == chunks@);
    }
}

/// How a configured chunk is laid out: where it sits and how it follows the repeat. None
/// of the configurable devices latches its triggers, and none keeps held triggers or lists
/// straight-timing cells.
pub open spec fn placement_of(c: ChunkConfig, p: ChunkPlacement) -> bool {
    &&& p.coords == c.coords
    &&& p.shape == c.shape
    &&& p.latch_mode == LatchMode::NoLatch
    &&& p.repeat_mode == c.repeat_mode
    &&& !p.no_suppress_held
    &&& p.straight_timing_local_ids@.len() == 0
}

/// The layout of a setup's chunks, in order.
pub fn chunk_placements(config: &Config) -> (r: Vec<ChunkPlacement>)
    ensures
        r@.len() == config.chunks@.len(),
        forall|i: int| 0 <= i < r@.len() ==> placement_of(config.chunks@[i], #[trigger] r@[i]),
{
    let mut r: Vec<ChunkPlacement> = Vec::new();
    let mut i: usize = 0;
    while i < config.chunks.len()
        invariant
            i <= config.chunks@.len(),
            r@.len() == i,
            forall|k: int| 0 <= k < i ==> placement_of(config.chunks@[k], #[trigger] r@[k]),
        decreases config.chunks@.len() - i,
    {
        let c = &config.chunks[i];
        r.push(ChunkPlacement {
            coords: c.coords,
            shape: c.shape,
            latch_mode: LatchMode::NoLatch,
            repeat_mode: c.repeat_mode,
            no_suppress_held: false,
            straight_timing_local_ids: Vec::new(),
        });
        i = i + 1;
    }
    r
}

} // verus!
