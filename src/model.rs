//! The editing model: what each edit does to the grid and the two
//! histories, stated over maps, and the laws that follow.
use vstd::prelude::*;
use crate::tile::{TilePos, TileRegion};
use crate::indexed::{after_insert, entries_map, index_of, lemma_insert, lookup, unique_keys};
use crate::document::{
    document_bytes, encodable, lemma_document_round_trip, parse_document, DocumentView,
    SpriteSheetView,
};
use crate::history::{push_bounded, lemma_push_bounded, HISTORY_CAPACITY};

verus! {

/// The painted cells of a grid.
pub type GridMap = Map<TilePos, TileRegion>;

/// What an edit found in the cells it touched.
pub type DiffMap = Map<TilePos, Option<TileRegion>>;

/// `g` with the cell at `pos` set to `v`: painted for `Some`, erased for `None`.
pub open spec fn write_cell(g: GridMap, pos: TilePos, v: Option<TileRegion>) -> GridMap {
    match v {
        Some(r) => g.insert(pos, r),
        None => g.remove(pos),
    }
}

/// `g` with every cell of `d` set back to the value that `d` recorded.
pub open spec fn apply_diff(g: GridMap, d: DiffMap) -> GridMap {
    Map::new(
        |k: TilePos|
            if d.contains_key(k) {
                d[k] is Some
            } else {
                g.contains_key(k)
            },
        |k: TilePos|
            if d.contains_key(k) {
                d[k]->0
            } else {
                g[k]
            },
    )
}

/// What `g` holds at each cell of `cells`.
pub open spec fn snapshot(g: GridMap, cells: Set<TilePos>) -> DiffMap {
    Map::new(|k: TilePos| cells.contains(k), |k: TilePos| lookup(g, k))
}

/// The editing state: the grid, the undo and redo histories (oldest
/// first), and the diff of the stroke in progress, if any.
pub ghost struct EditState {
    pub grid: GridMap,
    pub undos: Seq<DiffMap>,
    pub redos: Seq<DiffMap>,
    pub stroke: Option<DiffMap>,
}

impl EditState {
    pub open spec fn wf(self) -> bool {
        self.undos.len() <= HISTORY_CAPACITY && self.redos.len() <= HISTORY_CAPACITY
    }
}

/// A stroke begins: its diff starts empty and the redo history is dropped.
pub open spec fn begun(s: EditState) -> EditState {
    EditState { stroke: Some(Map::empty()), redos: Seq::empty(), ..s }
}

/// The pointer enters `pos` during a stroke: the first time, the cell's
/// value is recorded and the cell is painted with `tile`; later visits and
/// touches outside a stroke change nothing.
pub open spec fn touched(s: EditState, pos: TilePos, tile: TileRegion) -> EditState {
    match s.stroke {
        Some(d) => if d.contains_key(pos) {
            s
        } else {
            EditState {
                grid: s.grid.insert(pos, tile),
                stroke: Some(d.insert(pos, lookup(s.grid, pos))),
                ..s
            }
        },
        None => s,
    }
}

/// Touches each of `cells` in turn.
pub open spec fn touched_all(s: EditState, cells: Seq<TilePos>, tile: TileRegion) -> EditState
    decreases cells.len(),
{
    if cells.len() == 0 {
        s
    } else {
        touched(touched_all(s, cells.drop_last(), tile), cells.last(), tile)
    }
}

/// The stroke ends: its diff is pushed onto the undo history.
pub open spec fn ended(s: EditState) -> EditState {
    match s.stroke {
        Some(d) => EditState { undos: push_bounded(s.undos, d), stroke: None, ..s },
        None => s,
    }
}

/// A whole stroke over `cells`, painted with `tile`.
pub open spec fn committed(s: EditState, cells: Seq<TilePos>, tile: TileRegion) -> EditState {
    ended(touched_all(begun(s), cells, tile))
}

/// Undo: the newest undo diff is written back, and what it overwrote is
/// pushed onto the redo history. With no undo diff nothing changes.
pub open spec fn undone(s: EditState) -> EditState {
    if s.undos.len() == 0 {
        s
    } else {
        let d = s.undos.last();
        EditState {
            grid: apply_diff(s.grid, d),
            undos: s.undos.drop_last(),
            redos: push_bounded(s.redos, snapshot(s.grid, d.dom())),
            ..s
        }
    }
}

/// Redo: the mirror of `undone`.
pub open spec fn redone(s: EditState) -> EditState {
    if s.redos.len() == 0 {
        s
    } else {
        let d = s.redos.last();
        EditState {
            grid: apply_diff(s.grid, d),
            redos: s.redos.drop_last(),
            undos: push_bounded(s.undos, snapshot(s.grid, d.dom())),
            ..s
        }
    }
}

/// Clear all: the whole grid is pushed onto the undo history as one diff
/// and erased; the redo history is dropped. An empty grid pushes nothing.
pub open spec fn reset(s: EditState) -> EditState {
    if s.grid == Map::<TilePos, TileRegion>::empty() {
        EditState { redos: Seq::empty(), ..s }
    } else {
        EditState {
            grid: Map::empty(),
            undos: push_bounded(s.undos, snapshot(s.grid, s.grid.dom())),
            redos: Seq::empty(),
            ..s
        }
    }
}

/// Writing back what a diff recorded over `g`, after applying the diff,
/// gives `g` again.
pub proof fn lemma_apply_snapshot(g: GridMap, d: DiffMap)
    ensures
        apply_diff(apply_diff(g, d), snapshot(g, d.dom())) == g,
{
    assert(apply_diff(apply_diff(g, d), snapshot(g, d.dom())) =~= g);
}

/// Applying `d` with one more cell is applying `d`, then writing that cell.
pub proof fn lemma_apply_insert(g: GridMap, d: DiffMap, pos: TilePos, v: Option<TileRegion>)
    ensures
        apply_diff(g, d.insert(pos, v)) == write_cell(apply_diff(g, d), pos, v),
{
    assert(apply_diff(g, d.insert(pos, v)) =~= write_cell(apply_diff(g, d), pos, v));
}

/// During a stroke that began on `base`, the diff records exactly the
/// pre-stroke values of the touched cells, and writing it back gives `base`.
proof fn lemma_stroke_baseline(base: EditState, cells: Seq<TilePos>, tile: TileRegion)
    ensures
        touched_all(begun(base), cells, tile).stroke == Some(
            snapshot(base.grid, Set::new(|k: TilePos| cells.contains(k))),
        ),
        apply_diff(
            touched_all(begun(base), cells, tile).grid,
            touched_all(begun(base), cells, tile).stroke->0,
        ) == base.grid,
        touched_all(begun(base), cells, tile).undos == base.undos,
        touched_all(begun(base), cells, tile).redos.len() == 0,
    decreases cells.len(),
{
    if cells.len() == 0 {
        assert(snapshot(base.grid, Set::new(|k: TilePos| cells.contains(k))) =~= Map::empty());
        assert(apply_diff(base.grid, Map::empty()) =~= base.grid);
    } else {
        let prev = cells.drop_last();
        let pos = cells.last();
        lemma_stroke_baseline(base, prev, tile);
        let t = touched_all(begun(base), prev, tile);
        let d = t.stroke->0;
        let full = Set::new(|k: TilePos| cells.contains(k));
        let part = Set::new(|k: TilePos| prev.contains(k));
        assert forall|k: TilePos| #[trigger] full.contains(k) == (part.contains(k) || k == pos) by {
            if prev.contains(k) {
                let j = choose|j: int| 0 <= j < prev.len() && prev[j] == k;
                assert(cells[j] == k);
            }
            if cells.contains(k) && k != pos {
                let j = choose|j: int| 0 <= j < cells.len() && cells[j] == k;
                assert(prev[j] == k);
            }
            if k == pos {
                assert(cells[cells.len() - 1] == k);
            }
        }
        if d.contains_key(pos) {
            assert(snapshot(base.grid, full) =~= snapshot(base.grid, part));
        } else {
            assert(lookup(t.grid, pos) == lookup(base.grid, pos));
            assert(snapshot(base.grid, full) =~= snapshot(base.grid, part).insert(pos, lookup(base.grid, pos)));
            assert(apply_diff(t.grid.insert(pos, tile), d.insert(pos, lookup(t.grid, pos))) =~= base.grid);
        }
    }
}

/// A stroke followed by an undo gives back the grid as it was before the
/// stroke, cell for cell.
pub proof fn lemma_stroke_then_undo(s: EditState, cells: Seq<TilePos>, tile: TileRegion)
    requires
        s.wf(),
    ensures
        undone(committed(s, cells, tile)).grid == s.grid,
{
    lemma_stroke_baseline(s, cells, tile);
    let t = touched_all(begun(s), cells, tile);
    lemma_push_bounded(t.undos, t.stroke->0);
}

/// An undo followed by a redo gives back the grid as it was before the
/// undo, whenever there was something to undo; and the other way round.
pub proof fn lemma_undo_then_redo(s: EditState)
    requires
        s.wf(),
    ensures
        s.undos.len() > 0 ==> redone(undone(s)).grid == s.grid,
        s.redos.len() > 0 ==> undone(redone(s)).grid == s.grid,
{
    if s.undos.len() > 0 {
        lemma_push_bounded(s.redos, snapshot(s.grid, s.undos.last().dom()));
        lemma_apply_snapshot(s.grid, s.undos.last());
    }
    if s.redos.len() > 0 {
        lemma_push_bounded(s.undos, snapshot(s.grid, s.redos.last().dom()));
        lemma_apply_snapshot(s.grid, s.redos.last());
    }
}

/// Each edit keeps both histories within `HISTORY_CAPACITY` diffs.
pub proof fn lemma_bounded(s: EditState, pos: TilePos, tile: TileRegion)
    requires
        s.wf(),
    ensures
        begun(s).wf(),
        touched(s, pos, tile).wf(),
        ended(s).wf(),
        undone(s).wf(),
        redone(s).wf(),
        reset(s).wf(),
{
    if let Some(d) = s.stroke {
        lemma_push_bounded(s.undos, d);
    }
    if s.undos.len() > 0 {
        lemma_push_bounded(s.redos, snapshot(s.grid, s.undos.last().dom()));
    }
    if s.redos.len() > 0 {
        lemma_push_bounded(s.undos, snapshot(s.grid, s.redos.last().dom()));
    }
    lemma_push_bounded(s.undos, snapshot(s.grid, s.grid.dom()));
}

/// A stroke that begins, or a reset, drops the redo history: a redo right
/// after it, or after any touches and the end of the stroke, changes
/// nothing.
pub proof fn lemma_new_edit_drops_redo(s: EditState, cells: Seq<TilePos>, tile: TileRegion)
    ensures
        begun(s).redos.len() == 0,
        reset(s).redos.len() == 0,
        redone(begun(s)) == begun(s),
        redone(reset(s)) == reset(s),
        redone(touched_all(begun(s), cells, tile)) == touched_all(begun(s), cells, tile),
        redone(committed(s, cells, tile)) == committed(s, cells, tile),
{
    lemma_stroke_baseline(s, cells, tile);
}

/// Touching a cell again during a stroke changes nothing, and a stroke's
/// diff holds, for each touched cell, its value from before the stroke.
pub proof fn lemma_revisit_keeps_baseline(s: EditState, cells: Seq<TilePos>, tile: TileRegion, pos: TilePos)
    ensures
        touched_all(begun(s), cells, tile).stroke == Some(
            snapshot(s.grid, Set::new(|k: TilePos| cells.contains(k))),
        ),
        cells.contains(pos) ==> touched(touched_all(begun(s), cells, tile), pos, tile)
            == touched_all(begun(s), cells, tile),
{
    lemma_stroke_baseline(s, cells, tile);
}

/// `g` with each cell of `s` painted in turn; a later entry for the same
/// cell wins.
pub open spec fn painted_all(g: GridMap, s: Seq<(TilePos, TileRegion)>) -> GridMap
    decreases s.len(),
{
    if s.len() == 0 {
        g
    } else {
        painted_all(g, s.drop_last()).insert(s.last().0, s.last().1)
    }
}

/// The entries of an empty map after inserting each of `s` in turn: a
/// cell keeps the place of its first occurrence and the value of its last.
pub open spec fn inserted_all(s: Seq<(TilePos, TileRegion)>) -> Seq<(TilePos, TileRegion)>
    decreases s.len(),
{
    if s.len() == 0 {
        Seq::empty()
    } else {
        after_insert(inserted_all(s.drop_last()), s.last().0, s.last().1)
    }
}

/// Inserting entries with unique keys, in turn, keeps them as they are.
pub proof fn lemma_inserted_all(s: Seq<(TilePos, TileRegion)>)
    requires
        unique_keys(s),
    ensures
        inserted_all(s) == s,
    decreases s.len(),
{
    if s.len() > 0 {
        let t = s.drop_last();
        let e = s.last();
        assert(unique_keys(t));
        lemma_inserted_all(t);
        if index_of(t, e.0) is Some {
            let j = choose|j: int| 0 <= j < t.len() && t[j].0 == e.0;
            assert(s[j].0 == s[s.len() - 1].0);
        }
        assert(after_insert(t, e.0, e.1) =~= s);
    }
}

/// The state after loading `d`: its cells on an empty grid, both histories
/// empty and no stroke in progress.
pub open spec fn loaded(d: DocumentView) -> EditState {
    EditState {
        grid: painted_all(Map::empty(), d.tiles),
        undos: Seq::empty(),
        redos: Seq::empty(),
        stroke: None,
    }
}

/// Painting entries with unique keys onto an empty grid gives the map they
/// stand for.
pub proof fn lemma_painted_all(s: Seq<(TilePos, TileRegion)>)
    requires
        unique_keys(s),
    ensures
        painted_all(Map::empty(), s) == entries_map(s),
    decreases s.len(),
{
    if s.len() == 0 {
        assert(entries_map(s) =~= Map::<TilePos, TileRegion>::empty());
    } else {
        let t = s.drop_last();
        let e = s.last();
        assert(unique_keys(t));
        lemma_painted_all(t);
        if index_of(t, e.0) is Some {
            let j = choose|j: int| 0 <= j < t.len() && t[j].0 == e.0;
            assert(s[j].0 == s[s.len() - 1].0);
        }
        lemma_insert(t, e.0, e.1);
        assert(after_insert(t, e.0, e.1) =~= s);
    }
}

/// Saving and loading again gives back the grid, cell for cell and in the
/// same order, and the spritesheet; both histories are then empty.
pub proof fn lemma_save_then_load(sheet: SpriteSheetView, cells: Seq<(TilePos, TileRegion)>)
    requires
        unique_keys(cells),
        encodable(DocumentView { sprite_sheet: sheet, tiles: cells }),
    ensures
        parse_document(document_bytes(DocumentView { sprite_sheet: sheet, tiles: cells }))
            matches Some(d) && d.sprite_sheet == sheet && loaded(d).grid == entries_map(cells)
            && inserted_all(d.tiles) == cells && loaded(d).undos.len() == 0
            && loaded(d).redos.len() == 0,
{
    lemma_document_round_trip(DocumentView { sprite_sheet: sheet, tiles: cells });
    lemma_painted_all(cells);
    lemma_inserted_all(cells);
}

} // verus!
