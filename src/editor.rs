//! The edit engine: strokes, undo, redo and reset over a grid and its two
//! histories.
use vstd::prelude::*;
use crate::tile::{TilePos, TileRegion};
use crate::grid::{Diff, Grid};
use crate::history::History;
use crate::input::{shortcuts, Keys};
use crate::indexed::{entries_map, index_of, lemma_insert, lookup, unique_keys};
use crate::document::{
    decode, document_bytes, encodable, encode, parse_document, Document, DocumentView, SpriteSheet,
    SpriteSheetView,
};
use crate::model::{
    apply_diff, begun, committed, ended, inserted_all, lemma_apply_insert, loaded, painted_all, redone, reset,
    snapshot, touched, touched_all, undone, EditState,
};

verus! {

/// Writes back every cell that `d` recorded, and returns what those cells
/// held before.
fn replay(grid: &mut Grid, d: &Diff) -> (r: Diff)
    requires
        old(grid).wf(),
        d.wf(),
    ensures
        final(grid).wf(),
        final(grid)@ == apply_diff(old(grid)@, d@),
        r.wf(),
        r@ == snapshot(old(grid)@, d@.dom()),
{
    let ghost g0 = grid@;
    let n = d.len();
    let mut r = Diff::new();
    let mut i: usize = 0;
    assert(entries_map(d.entries().take(0)) =~= Map::empty());
    assert(apply_diff(g0, Map::empty()) =~= g0);
    assert(snapshot(g0, Map::<TilePos, Option<TileRegion>>::empty().dom()) =~= r@);
    while i < n
        invariant
            n == d.entries().len(),
            i <= n,
            d.wf(),
            grid.wf(),
            r.wf(),
            grid@ == apply_diff(g0, entries_map(d.entries().take(i as int))),
            r@ == snapshot(g0, entries_map(d.entries().take(i as int)).dom()),
        decreases n - i,
    {
        let (pos, v) = d.entry(i);
        let ghost t = d.entries().take(i as int);
        let ghost m = entries_map(t);
        proof {
            assert(d.entries().take(i + 1) =~= t.push((pos, v)));
            assert(unique_keys(t));
            if index_of(t, pos) is Some {
                let j = choose|j: int| 0 <= j < t.len() && t[j].0 == pos;
                assert(d.entries()[j].0 == d.entries()[i as int].0);
            }
            lemma_insert(t, pos, v);
            lemma_apply_insert(g0, m, pos, v);
            assert(!m.contains_key(pos));
        }
        let prev = match v {
            Some(region) => grid.set(pos, region),
            None => grid.remove(pos),
        };
        proof {
            assert(lookup(apply_diff(g0, m), pos) == lookup(g0, pos));
            assert(!r@.contains_key(pos));
        }
        r.record(pos, prev);
        proof {
            assert(snapshot(g0, m.insert(pos, v).dom()) =~= snapshot(g0, m.dom()).insert(pos, prev));
        }
        i = i + 1;
    }
    assert(d.entries().take(n as int) =~= d.entries());
    r
}

/// Why an editor operation failed. Each leaves the editor as it was.
#[derive(Clone, Copy, PartialEq, Eq, Structural, Debug)]
pub enum EditError {
    /// Saving needs a spritesheet, and none is chosen.
    NoSpriteSheet,
    /// The user closed a file dialog without choosing.
    DialogCancelled,
    /// Reading or writing a file failed.
    Io,
    /// The bytes do not hold a document.
    Decode,
}

/// The editing engine: the spritesheet, the grid, the undo and redo histories, and the
/// stroke in progress.
pub struct Editor {
    grid: Grid,
    undos: History,
    redos: History,
    stroke: Option<Diff>,
    sprite_sheet: Option<SpriteSheet>,
}

impl Editor {
    /// The editing state that this editor holds.
    pub closed spec fn state(&self) -> EditState {
        EditState {
            grid: self.grid@,
            undos: self.undos@,
            redos: self.redos@,
            stroke: match self.stroke {
                Some(d) => Some(d@),
                None => None,
            },
        }
    }

    /// The painted cells in iteration order.
    pub closed spec fn order(&self) -> Seq<(TilePos, TileRegion)> {
        self.grid.entries()
    }

    /// The chosen spritesheet, if any.
    pub closed spec fn sheet(&self) -> Option<SpriteSheetView> {
        match self.sprite_sheet {
            Some(s) => Some(s@),
            None => None,
        }
    }

    pub closed spec fn wf(&self) -> bool {
        &&& self.grid.wf()
        &&& self.undos.wf()
        &&& self.redos.wf()
        &&& (self.stroke matches Some(d) ==> d.wf())
    }

    /// A well-formed editor holds a well-formed state.
    pub proof fn lemma_wf(&self)
        requires
            self.wf(),
        ensures
            self.state().wf(),
            unique_keys(self.order()),
            entries_map(self.order()) == self.state().grid,
    {
    }

    pub fn new() -> (r: Editor)
        ensures
            r.wf(),
            r.state() == (EditState {
                grid: Map::empty(),
                undos: Seq::empty(),
                redos: Seq::empty(),
                stroke: None,
            }),
            r.sheet() is None,
    {
        Editor {
            grid: Grid::new(),
            undos: History::new(),
            redos: History::new(),
            stroke: None,
            sprite_sheet: None,
        }
    }

    /// The chosen spritesheet, if any.
    pub fn sprite_sheet(&self) -> (r: &Option<SpriteSheet>)
        ensures
            r matches Some(s) ==> self.sheet() == Some(s@),
            r is None <==> self.sheet() is None,
    {
        &self.sprite_sheet
    }

    /// Chooses the spritesheet to paint from.
    pub fn set_sprite_sheet(&mut self, sheet: SpriteSheet)
        requires
            old(self).wf(),
        ensures
            final(self).wf(),
            final(self).state() == old(self).state(),
            final(self).order() == old(self).order(),
            final(self).sheet() == Some(sheet@),
    {
        self.sprite_sheet = Some(sheet);
    }

    /// Changes how the chosen spritesheet is sliced; without a spritesheet
    /// nothing changes.
    pub fn set_slicing(&mut self, rows: u64, columns: u64)
        requires
            old(self).wf(),
        ensures
            final(self).wf(),
            final(self).state() == old(self).state(),
            final(self).order() == old(self).order(),
            final(self).sheet() == match old(self).sheet() {
                Some(s) => Some(SpriteSheetView { rows, columns, ..s }),
                None => None,
            },
    {
        match &mut self.sprite_sheet {
            Some(s) => {
                s.rows = rows;
                s.columns = columns;
            },
            None => {},
        }
    }

    /// The document of the chosen spritesheet and the painted cells, in
    /// iteration order; fails when no spritesheet is chosen.
    pub fn document(&self) -> (r: Result<Document, EditError>)
        requires
            self.wf(),
        ensures
            match self.sheet() {
                Some(sheet) => r matches Ok(d) && d@ == (DocumentView {
                    sprite_sheet: sheet,
                    tiles: self.order(),
                }),
                None => r == Err::<Document, EditError>(EditError::NoSpriteSheet),
            },
    {
        match &self.sprite_sheet {
            Some(sheet) => Ok(Document { sprite_sheet: sheet.clone_sheet(), tiles: self.grid.to_vec() }),
            None => Err(EditError::NoSpriteSheet),
        }
    }

    /// The bytes of the document; fails, before any output, when no
    /// spritesheet is chosen.
    pub fn save(&self) -> (r: Result<Vec<u8>, EditError>)
        requires
            self.wf(),
        ensures
            match self.sheet() {
                Some(sheet) => r matches Ok(b) && b@ == document_bytes(
                    DocumentView { sprite_sheet: sheet, tiles: self.order() },
                ) && encodable(DocumentView { sprite_sheet: sheet, tiles: self.order() }),
                None => r == Err::<Vec<u8>, EditError>(EditError::NoSpriteSheet),
            },
    {
        match self.document() {
            Ok(d) => Ok(encode(&d)),
            Err(e) => Err(e),
        }
    }

    /// Replaces the spritesheet and the grid with the document in `bytes`
    /// and empties both histories; bytes that hold no document change
    /// nothing.
    pub fn load(&mut self, bytes: &Vec<u8>) -> (r: Result<(), EditError>)
        requires
            old(self).wf(),
        ensures
            final(self).wf(),
            match parse_document(bytes@) {
                Some(d) => r is Ok && final(self).state() == loaded(d) && final(self).order()
                    == inserted_all(d.tiles) && final(self).sheet() == Some(d.sprite_sheet),
                None => r == Err::<(), EditError>(EditError::Decode) && final(self).state()
                    == old(self).state() && final(self).sheet() == old(self).sheet()
                    && final(self).order() == old(self).order(),
            },
    {
        let doc = match decode(bytes) {
            Some(d) => d,
            None => {
                return Err(EditError::Decode);
            },
        };
        let Document { sprite_sheet, tiles } = doc;
        self.grid.clear();
        self.undos.clear();
        self.redos.clear();
        self.stroke = None;
        let ghost sheet = sprite_sheet@;
        self.sprite_sheet = Some(sprite_sheet);
        let mut i: usize = 0;
        assert(painted_all(Map::empty(), tiles@.take(0)) == self.grid@);
        assert(inserted_all(tiles@.take(0)) =~= self.order());
        while i < tiles.len()
            invariant
                self.wf(),
                i <= tiles@.len(),
                self.grid@ == painted_all(Map::empty(), tiles@.take(i as int)),
                self.undos@.len() == 0,
                self.redos@.len() == 0,
                self.stroke is None,
                self.sheet() == Some(sheet),
                self.order() == inserted_all(tiles@.take(i as int)),
            decreases tiles@.len() - i,
        {
            let (pos, region) = tiles[i];
            self.grid.set(pos, region);
            assert(tiles@.take(i + 1).drop_last() =~= tiles@.take(i as int));
            i = i + 1;
        }
        assert(tiles@.take(tiles@.len() as int) =~= tiles@);
        assert(self.undos@ =~= Seq::empty());
        assert(self.redos@ =~= Seq::empty());
        Ok(())
    }

    /// The painted cells.
    pub fn grid(&self) -> (r: &Grid)
        requires
            self.wf(),
        ensures
            r.wf(),
            r@ == self.state().grid,
    {
        &self.grid
    }

    /// The region painted at `pos`, if any.
    pub fn get(&self, pos: TilePos) -> (r: Option<TileRegion>)
        requires
            self.wf(),
        ensures
            r == lookup(self.state().grid, pos),
    {
        self.grid.get(pos)
    }

    /// The painted cells, in iteration order.
    pub fn tiles(&self) -> (r: Vec<(TilePos, TileRegion)>)
        requires
            self.wf(),
        ensures
            r@ == self.order(),
            entries_map(r@) == self.state().grid,
            unique_keys(r@),
    {
        self.grid.to_vec()
    }

    /// The number of diffs that undo can take back.
    pub fn undo_len(&self) -> (r: usize)
        ensures
            r == self.state().undos.len(),
    {
        self.undos.len()
    }

    /// The number of diffs that redo can take back.
    pub fn redo_len(&self) -> (r: usize)
        ensures
            r == self.state().redos.len(),
    {
        self.redos.len()
    }

    /// Whether a stroke is in progress.
    pub fn is_stroking(&self) -> (r: bool)
        ensures
            r == self.state().stroke is Some,
    {
        self.stroke.is_some()
    }

    /// Starts a stroke; the redo history is dropped.
    pub fn begin_stroke(&mut self)
        requires
            old(self).wf(),
        ensures
            final(self).wf(),
            final(self).state() == begun(old(self).state()),
            final(self).sheet() == old(self).sheet(),
    {
        self.redos.clear();
        self.stroke = Some(Diff::new());
    }

    /// The pointer enters `pos` while `tile` is selected: during a stroke,
    /// the first visit records the cell's value and paints it.
    pub fn touch(&mut self, pos: TilePos, tile: TileRegion)
        requires
            old(self).wf(),
        ensures
            final(self).wf(),
            final(self).state() == touched(old(self).state(), pos, tile),
            final(self).sheet() == old(self).sheet(),
    {
        let mut stroke = self.stroke.take();
        match &mut stroke {
            Some(d) => {
                if !d.contains(pos) {
                    let prev = self.grid.set(pos, tile);
                    d.record(pos, prev);
                }
            },
            None => {},
        }
        self.stroke = stroke;
    }

    /// Ends the stroke in progress and pushes its diff onto the undo
    /// history.
    pub fn end_stroke(&mut self)
        requires
            old(self).wf(),
        ensures
            final(self).wf(),
            final(self).state() == ended(old(self).state()),
            final(self).sheet() == old(self).sheet(),
    {
        let stroke = self.stroke.take();
        match stroke {
            Some(d) => {
                self.undos.push(d);
            },
            None => {},
        }
    }

    /// One whole stroke: paints `tile` over `cells`, in order, as a single
    /// undoable edit.
    pub fn commit_stroke(&mut self, cells: &Vec<TilePos>, tile: TileRegion)
        requires
            old(self).wf(),
        ensures
            final(self).wf(),
            final(self).state() == committed(old(self).state(), cells@, tile),
            final(self).sheet() == old(self).sheet(),
    {
        let ghost s0 = self.state();
        self.begin_stroke();
        let mut i: usize = 0;
        while i < cells.len()
            invariant
                self.wf(),
                i <= cells.len(),
                self.state() == touched_all(begun(s0), cells@.take(i as int), tile),
                self.sheet() == old(self).sheet(),
            decreases cells.len() - i,
        {
            self.touch(cells[i], tile);
            proof {
                let t = cells@.take(i + 1);
                assert(t.drop_last() =~= cells@.take(i as int));
            }
            i = i + 1;
        }
        assert(cells@.take(cells.len() as int) =~= cells@);
        self.end_stroke();
    }

    /// Takes back the newest undo diff, and makes it redoable.
    pub fn undo(&mut self)
        requires
            old(self).wf(),
        ensures
            final(self).wf(),
            final(self).state() == undone(old(self).state()),
            final(self).sheet() == old(self).sheet(),
    {
        match self.undos.pop() {
            Some(d) => {
                let back = replay(&mut self.grid, &d);
                self.redos.push(back);
            },
            None => {},
        }
    }

    /// Takes back the newest redo diff, and makes it undoable again.
    pub fn redo(&mut self)
        requires
            old(self).wf(),
        ensures
            final(self).wf(),
            final(self).state() == redone(old(self).state()),
            final(self).sheet() == old(self).sheet(),
    {
        match self.redos.pop() {
            Some(d) => {
                let back = replay(&mut self.grid, &d);
                self.undos.push(back);
            },
            None => {},
        }
    }

    /// Clears the grid as one undoable edit, and drops the redo history.
    pub fn reset(&mut self)
        requires
            old(self).wf(),
        ensures
            final(self).wf(),
            final(self).state() == reset(old(self).state()),
            final(self).sheet() == old(self).sheet(),
    {
        self.redos.clear();
        if !self.grid.is_empty() {
            let cells = self.grid.to_vec();
            let mut d = Diff::new();
            let ghost g = self.grid@;
            let mut i: usize = 0;
            while i < cells.len()
                invariant
                    cells@ == self.grid.entries(),
                    self.grid.wf(),
                    g == self.grid@,
                    i <= cells.len(),
                    d.wf(),
                    d@ == snapshot(g, entries_map(cells@.take(i as int)).dom()),
                    self.sheet() == old(self).sheet(),
                decreases cells.len() - i,
            {
                let (pos, region) = cells[i];
                let ghost t = cells@.take(i as int);
                proof {
                    assert(cells@.take(i + 1) =~= t.push((pos, region)));
                    assert(unique_keys(t));
                    if index_of(t, pos) is Some {
                        let j = choose|j: int| 0 <= j < t.len() && t[j].0 == pos;
                        assert(cells@[j].0 == cells@[i as int].0);
                    }
                    lemma_insert(t, pos, region);
                    crate::indexed::lemma_lookup(cells@, pos);
                    crate::indexed::lemma_index_of_unique(cells@, i as int);
                }
                d.record(pos, Some(region));
                proof {
                    assert(snapshot(g, entries_map(t).insert(pos, region).dom()) =~= snapshot(
                        g,
                        entries_map(t).dom(),
                    ).insert(pos, Some(region)));
                }
                i = i + 1;
            }
            assert(cells@.take(cells.len() as int) =~= cells@);
            self.grid.clear();
            self.undos.push(d);
        }
    }

    /// One tick of pointer input. A drag that is released ends the stroke,
    /// wherever the pointer is. With the pointer over `cell` and `selected`
    /// chosen, a drag that starts begins a stroke, and during a stroke the
    /// cell is touched. Without a cell or a selection nothing else changes.
    pub fn pointer(
        &mut self,
        cell: Option<TilePos>,
        selected: Option<TileRegion>,
        drag_started: bool,
        drag_released: bool,
    )
        requires
            old(self).wf(),
        ensures
            final(self).wf(),
            final(self).sheet() == old(self).sheet(),
            match (cell, selected) {
                (Some(pos), Some(tile)) => {
                    let s = if drag_started {
                        begun(old(self).state())
                    } else if drag_released {
                        ended(old(self).state())
                    } else {
                        old(self).state()
                    };
                    final(self).state() == touched(s, pos, tile)
                },
                _ => final(self).state() == if !drag_started && drag_released {
                    ended(old(self).state())
                } else {
                    old(self).state()
                },
            },
    {
        match (cell, selected) {
            (Some(pos), Some(tile)) => {
                if drag_started {
                    self.begin_stroke();
                } else if drag_released {
                    self.end_stroke();
                }
                self.touch(pos, tile);
            },
            _ => {
                if !drag_started && drag_released {
                    self.end_stroke();
                }
            },
        }
    }

    /// One tick of keyboard input: runs the undo or redo that `keys` ask
    /// for, and returns whether they ask for a save.
    pub fn keys(&mut self, keys: Keys) -> (save: bool)
        requires
            old(self).wf(),
        ensures
            final(self).wf(),
            final(self).sheet() == old(self).sheet(),
            save == (keys.s_pressed && keys.ctrl_held),
            final(self).state() == if keys.z_pressed && keys.ctrl_held && !keys.shift_held {
                undone(old(self).state())
            } else if keys.z_pressed && keys.ctrl_held && keys.shift_held {
                redone(old(self).state())
            } else {
                old(self).state()
            },
    {
        let wanted = shortcuts(keys);
        if wanted.undo {
            self.undo();
        } else if wanted.redo {
            self.redo();
        }
        wanted.save
    }
}

} // verus!
