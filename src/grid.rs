//! The sparse grid of painted cells, and the diffs that record what cells
//! held before an edit.
use vstd::prelude::*;
use indexmap::IndexMap;
use crate::tile::{TilePos, TileRegion};
use crate::indexed::{
    baseline_contains_key, baseline_entries, painted_entries, baseline_get_index, baseline_insert, baseline_len,
    baseline_new, entries_map, lemma_insert, lemma_lookup, lemma_shift_remove, lookup, painted_clear,
    painted_get, painted_get_index, painted_insert, painted_len, painted_new, painted_shift_remove,
    after_insert, after_shift_remove, unique_keys,
};

verus! {

/// The painted cells: each cell position maps to the region it shows.
/// Cells iterate in the order in which they were first painted.
pub struct Grid {
    cells: IndexMap<TilePos, TileRegion>,
}

impl View for Grid {
    type V = Map<TilePos, TileRegion>;

    open spec fn view(&self) -> Map<TilePos, TileRegion> {
        entries_map(self.entries())
    }
}

impl Grid {
    /// The painted cells in iteration order.
    pub closed spec fn entries(&self) -> Seq<(TilePos, TileRegion)> {
        painted_entries(self.cells)
    }

    pub open spec fn wf(&self) -> bool {
        unique_keys(self.entries())
    }

    pub fn new() -> (r: Grid)
        ensures
            r.wf(),
            r@ == Map::<TilePos, TileRegion>::empty(),
            r.entries().len() == 0,
    {
        let r = Grid { cells: painted_new() };
        assert(r@ =~= Map::<TilePos, TileRegion>::empty());
        r
    }

    pub fn len(&self) -> (r: usize)
        ensures
            r == self.entries().len(),
    {
        painted_len(&self.cells)
    }

    pub fn is_empty(&self) -> (r: bool)
        requires
            self.wf(),
        ensures
            r == (self@ == Map::<TilePos, TileRegion>::empty()),
    {
        let n = painted_len(&self.cells);
        if n == 0 {
            assert(self@ =~= Map::<TilePos, TileRegion>::empty());
        } else {
            assert(self@.contains_key(self.entries()[0].0));
        }
        n == 0
    }

    /// The region painted at `pos`, if any.
    pub fn get(&self, pos: TilePos) -> (r: Option<TileRegion>)
        requires
            self.wf(),
        ensures
            r == lookup(self@, pos),
    {
        proof {
            lemma_lookup(self.entries(), pos);
        }
        painted_get(&self.cells, pos)
    }

    /// Paints `value` at `pos`; returns what was there before.
    pub fn set(&mut self, pos: TilePos, value: TileRegion) -> (r: Option<TileRegion>)
        requires
            old(self).wf(),
        ensures
            final(self).wf(),
            final(self)@ == old(self)@.insert(pos, value),
            final(self).entries() == after_insert(old(self).entries(), pos, value),
            r == lookup(old(self)@, pos),
    {
        proof {
            lemma_lookup(self.entries(), pos);
            lemma_insert(self.entries(), pos, value);
        }
        painted_insert(&mut self.cells, pos, value)
    }

    /// Erases the cell at `pos`; returns what was there before.
    pub fn remove(&mut self, pos: TilePos) -> (r: Option<TileRegion>)
        requires
            old(self).wf(),
        ensures
            final(self).wf(),
            final(self)@ == old(self)@.remove(pos),
            final(self).entries() == after_shift_remove(old(self).entries(), pos),
            r == lookup(old(self)@, pos),
    {
        proof {
            lemma_lookup(self.entries(), pos);
            lemma_shift_remove(self.entries(), pos);
        }
        painted_shift_remove(&mut self.cells, pos)
    }

    /// Erases every cell.
    pub fn clear(&mut self)
        ensures
            final(self).wf(),
            final(self)@ == Map::<TilePos, TileRegion>::empty(),
            final(self).entries().len() == 0,
    {
        painted_clear(&mut self.cells);
        assert(self@ =~= Map::<TilePos, TileRegion>::empty());
    }

    /// The painted cells, in iteration order.
    pub fn to_vec(&self) -> (r: Vec<(TilePos, TileRegion)>)
        ensures
            r@ == self.entries(),
    {
        let n = painted_len(&self.cells);
        let mut r: Vec<(TilePos, TileRegion)> = Vec::new();
        let mut i: usize = 0;
        while i < n
            invariant
                n == self.entries().len(),
                i <= n,
                r@ == self.entries().take(i as int),
            decreases n - i,
        {
            let e = painted_get_index(&self.cells, i);
            match e {
                Some(p) => {
                    r.push(p);
                },
                None => {},
            }
            assert(self.entries().take(i + 1) =~= self.entries().take(i as int).push(self.entries()[i as int]));
            i = i + 1;
        }
        assert(self.entries().take(n as int) =~= self.entries());
        r
    }
}

/// What an edit found in each cell it touched, before it touched it:
/// `Some(region)` for a painted cell, `None` for an empty one. Each cell
/// occurs at most once.
pub struct Diff {
    cells: IndexMap<TilePos, Option<TileRegion>>,
}

impl View for Diff {
    type V = Map<TilePos, Option<TileRegion>>;

    open spec fn view(&self) -> Map<TilePos, Option<TileRegion>> {
        entries_map(self.entries())
    }
}

impl Diff {
    /// The recorded cells in the order they were recorded.
    pub closed spec fn entries(&self) -> Seq<(TilePos, Option<TileRegion>)> {
        baseline_entries(self.cells)
    }

    pub open spec fn wf(&self) -> bool {
        unique_keys(self.entries())
    }

    pub fn new() -> (r: Diff)
        ensures
            r.wf(),
            r@ == Map::<TilePos, Option<TileRegion>>::empty(),
            r.entries().len() == 0,
    {
        let r = Diff { cells: baseline_new() };
        assert(r@ =~= Map::<TilePos, Option<TileRegion>>::empty());
        r
    }

    pub fn len(&self) -> (r: usize)
        ensures
            r == self.entries().len(),
    {
        baseline_len(&self.cells)
    }

    /// Whether `pos` has been recorded.
    pub fn contains(&self, pos: TilePos) -> (r: bool)
        ensures
            r == self@.contains_key(pos),
    {
        baseline_contains_key(&self.cells, pos)
    }

    /// Records `value` for `pos`, which must not be recorded yet.
    pub fn record(&mut self, pos: TilePos, value: Option<TileRegion>)
        requires
            old(self).wf(),
            !old(self)@.contains_key(pos),
        ensures
            final(self).wf(),
            final(self)@ == old(self)@.insert(pos, value),
            final(self).entries() == old(self).entries().push((pos, value)),
    {
        proof {
            lemma_insert(self.entries(), pos, value);
        }
        baseline_insert(&mut self.cells, pos, value);
    }

    /// The entry at index `i` of the recording order.
    pub fn entry(&self, i: usize) -> (r: (TilePos, Option<TileRegion>))
        requires
            i < self.entries().len(),
        ensures
            r == self.entries()[i as int],
    {
        baseline_get_index(&self.cells, i).unwrap()
    }
}

} // verus!
