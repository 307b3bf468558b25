//! A bounded stack of diffs: the undo and the redo history.
use vstd::prelude::*;
use std::collections::VecDeque;
use crate::grid::Diff;
use crate::tile::{TilePos, TileRegion};

verus! {

/// How many diffs a history keeps.
pub const HISTORY_CAPACITY: usize = 5;

/// `s` after pushing `x` onto a history: when the history is full its
/// oldest entry is dropped first.
pub open spec fn push_bounded<T>(s: Seq<T>, x: T) -> Seq<T> {
    if s.len() >= HISTORY_CAPACITY {
        s.skip(1).push(x)
    } else {
        s.push(x)
    }
}

/// A stack of at most `HISTORY_CAPACITY` diffs, oldest first.
pub struct History {
    items: VecDeque<Diff>,
}

impl View for History {
    type V = Seq<Map<TilePos, Option<TileRegion>>>;

    open spec fn view(&self) -> Seq<Map<TilePos, Option<TileRegion>>> {
        self.diffs().map_values(|d: Diff| d@)
    }
}

impl History {
    /// The diffs held, oldest first.
    pub closed spec fn diffs(&self) -> Seq<Diff> {
        self.items@
    }

    pub open spec fn wf(&self) -> bool {
        &&& self.diffs().len() <= HISTORY_CAPACITY
        &&& forall|i: int| 0 <= i < self.diffs().len() ==> (#[trigger] self.diffs()[i]).wf()
    }

    pub fn new() -> (r: History)
        ensures
            r.wf(),
            r@ == Seq::<Map<TilePos, Option<TileRegion>>>::empty(),
    {
        let r = History { items: VecDeque::new() };
        assert(r@ =~= Seq::<Map<TilePos, Option<TileRegion>>>::empty());
        r
    }

    pub fn len(&self) -> (r: usize)
        ensures
            r == self@.len(),
    {
        self.items.len()
    }

    /// Pushes `diff` as the newest entry, dropping the oldest when full.
    pub fn push(&mut self, diff: Diff)
        requires
            old(self).wf(),
            diff.wf(),
        ensures
            final(self).wf(),
            final(self)@ == push_bounded(old(self)@, diff@),
    {
        let ghost s = self.diffs();
        if self.items.len() >= HISTORY_CAPACITY {
            let _ = self.items.pop_front();
            assert(self.diffs() =~= s.skip(1));
        }
        self.items.push_back(diff);
        assert(self@ =~= push_bounded(s.map_values(|d: Diff| d@), diff@));
    }

    /// Removes and returns the newest entry, or `None` when empty.
    pub fn pop(&mut self) -> (r: Option<Diff>)
        requires
            old(self).wf(),
        ensures
            final(self).wf(),
            old(self)@.len() == 0 ==> r is None && final(self)@ == old(self)@,
            old(self)@.len() > 0 ==> r is Some && r->0.wf() && r->0@ == old(self)@.last()
                && final(self)@ == old(self)@.drop_last(),
    {
        let ghost s = self.diffs();
        let r = self.items.pop_back();
        proof {
            if s.len() > 0 {
                assert(self.diffs() =~= s.drop_last());
                assert(self@ =~= s.map_values(|d: Diff| d@).drop_last());
            }
        }
        r
    }

    /// Discards every entry.
    pub fn clear(&mut self)
        ensures
            final(self).wf(),
            final(self)@ == Seq::<Map<TilePos, Option<TileRegion>>>::empty(),
    {
        self.items.clear();
        assert(self@ =~= Seq::<Map<TilePos, Option<TileRegion>>>::empty());
    }
}

/// A history never holds more than `HISTORY_CAPACITY` diffs; pushing onto a
/// full one drops its oldest entry for good and keeps the others in order.
pub proof fn lemma_push_bounded<T>(s: Seq<T>, x: T)
    requires
        s.len() <= HISTORY_CAPACITY,
    ensures
        push_bounded(s, x).len() <= HISTORY_CAPACITY,
        push_bounded(s, x).last() == x,
        s.len() < HISTORY_CAPACITY ==> push_bounded(s, x) == s.push(x),
        s.len() == HISTORY_CAPACITY ==> push_bounded(s, x) == s.subrange(1, s.len() as int).push(x),
{
    assert(s.skip(1) =~= s.subrange(1, s.len() as int));
}

} // verus!
