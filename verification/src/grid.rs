//! The fixed 42-slot calendar grid and its bulk operations.

use vstd::prelude::*;

use crate::calendar::{cell_date, is_highlighted, spec_is_highlighted, AnchorSpec, GRID_CELLS};
use crate::cell::Cell;
use crate::date::{weekday_index, Weekday};
use crate::failure::Failure;

verus! {

/// Number of cells a grid holds, as a spec value.
pub open spec fn grid_len() -> int {
    42
}

/// How many of the cells have `name` assigned.
pub open spec fn spec_usage(cells: Seq<Cell>, name: Seq<char>) -> int
    decreases cells.len(),
{
    if cells.len() == 0 {
        0
    } else {
        spec_usage(cells.drop_last(), name) + if cells.last().name_set().contains(name) {
            1int
        } else {
            0int
        }
    }
}

/// A usage count never exceeds the number of cells.
pub proof fn lemma_usage_bound(cells: Seq<Cell>, name: Seq<char>)
    ensures
        0 <= spec_usage(cells, name) <= cells.len(),
    decreases cells.len(),
{
    if cells.len() > 0 {
        lemma_usage_bound(cells.drop_last(), name);
    }
}

/// Cells that agree on membership of `name` are counted alike.
pub proof fn lemma_usage_congruent(a: Seq<Cell>, b: Seq<Cell>, name: Seq<char>)
    requires
        a.len() == b.len(),
        forall|i: int|
            0 <= i < a.len() ==> (#[trigger] a[i].name_set().contains(name) == #[trigger] b[
            i].name_set().contains(name)),
    ensures
        spec_usage(a, name) == spec_usage(b, name),
    decreases a.len(),
{
    if a.len() > 0 {
        assert(a.last().name_set().contains(name) == b.last().name_set().contains(name));
        lemma_usage_congruent(a.drop_last(), b.drop_last(), name);
    }
}

/// No cell has `name`: the usage count is zero.
pub proof fn lemma_usage_zero(cells: Seq<Cell>, name: Seq<char>)
    requires
        forall|i: int| 0 <= i < cells.len() ==> !#[trigger] cells[i].name_set().contains(name),
    ensures
        spec_usage(cells, name) == 0,
    decreases cells.len(),
{
    if cells.len() > 0 {
        lemma_usage_zero(cells.drop_last(), name);
    }
}

/// The fixed array of 42 calendar cells.
pub struct CellGrid {
    /// The cells, top-left first, row by row.
    pub cells: Vec<Cell>,
}

impl CellGrid {
    /// Exactly 42 cells, each with its names sorted.
    pub open spec fn wf(self) -> bool {
        &&& self.cells@.len() == grid_len()
        &&& forall|i: int| 0 <= i < self.cells@.len() ==> (#[trigger] self.cells@[i]).wf()
    }

    /// A fresh grid: 42 cells, none selected, nothing assigned.
    pub fn new() -> (g: CellGrid)
        ensures
            g.wf(),
            forall|i: int|
                0 <= i < grid_len() ==> !(#[trigger] g.cells@[i]).selected && g.cells@[
                i].name_set() =~= Set::<Seq<char>>::empty(),
    {
        let mut cells: Vec<Cell> = Vec::new();
        let mut i: usize = 0;
        while i < GRID_CELLS
            invariant
                i <= GRID_CELLS,
                cells@.len() == i,
                forall|k: int|
                    0 <= k < i ==> (#[trigger] cells@[k]).wf() && !cells@[k].selected && cells@[
                    k].name_set() =~= Set::<Seq<char>>::empty(),
            decreases GRID_CELLS - i,
        {
            cells.push(Cell::new());
            i = i + 1;
        }
        CellGrid { cells }
    }

    /// The cell at `position`; fails exactly on positions off the grid.
    pub fn get_cell(&self, position: usize) -> (r: Result<&Cell, Failure>)
        requires
            self.wf(),
        ensures
            position < grid_len() ==> (r matches Ok(c) && *c == self.cells@[position as int]),
            position >= grid_len() ==> r == Err::<&Cell, Failure>(Failure::Cell(position)),
    {
        if position < self.cells.len() {
            Ok(&self.cells[position])
        } else {
            Err(Failure::Cell(position))
        }
    }

    /// Set the selection flag of the cell at `position`; fails exactly
    /// off the grid, changing nothing.
    pub fn set_selected(&mut self, position: usize, selected: bool) -> (r: Result<(), Failure>)
        requires
            old(self).wf(),
        ensures
            final(self).wf(),
            position < grid_len() ==> {
                &&& r is Ok
                &&& final(self).cells@[position as int].selected == selected
                &&& final(self).cells@[position as int].config_names == old(self).cells@[
                position as int].config_names
                &&& forall|i: int|
                    0 <= i < grid_len() && i != position ==> #[trigger] final(self).cells@[i]
                        == old(self).cells@[i]
            },
            position >= grid_len() ==> r == Err::<(), Failure>(Failure::Cell(position)) && *final(self) == *old(self),
    {
        if position < self.cells.len() {
            let cell = &mut self.cells[position];
            cell.select(selected);
            Ok(())
        } else {
            Err(Failure::Cell(position))
        }
    }

    /// Remove `name` from the cell at `position`; fails exactly off the
    /// grid, changing nothing.
    pub fn remove_name_at(&mut self, position: usize, name: &str) -> (r: Result<(), Failure>)
        requires
            old(self).wf(),
        ensures
            final(self).wf(),
            position < grid_len() ==> {
                &&& r is Ok
                &&& final(self).cells@[position as int].name_set() == old(self).cells@[
                position as int].name_set().remove(name@)
                &&& final(self).cells@[position as int].selected == old(self).cells@[
                position as int].selected
                &&& forall|i: int|
                    0 <= i < grid_len() && i != position ==> #[trigger] final(self).cells@[i]
                        == old(self).cells@[i]
            },
            position >= grid_len() ==> r == Err::<(), Failure>(Failure::Cell(position)) && *final(self) == *old(self),
    {
        if position < self.cells.len() {
            let cell = &mut self.cells[position];
            cell.remove(name);
            Ok(())
        } else {
            Err(Failure::Cell(position))
        }
    }

    /// Reset every cell: nothing selected, nothing assigned.
    pub fn clear_cells(&mut self)
        requires
            old(self).wf(),
        ensures
            final(self).wf(),
            forall|i: int|
                0 <= i < grid_len() ==> !(#[trigger] final(self).cells@[i]).selected && final(self).cells@[i].name_set() =~= Set::<Seq<char>>::empty(),
    {
        let mut i: usize = 0;
        while i < self.cells.len()
            invariant
                old(self).wf(),
                self.cells@.len() == grid_len(),
                i <= self.cells@.len(),
                forall|k: int| 0 <= k < self.cells@.len() ==> (#[trigger] self.cells@[k]).wf(),
                forall|k: int|
                    0 <= k < i ==> !(#[trigger] self.cells@[k]).selected && self.cells@[
                    k].name_set() =~= Set::<Seq<char>>::empty(),
            decreases self.cells@.len() - i,
        {
            let cell = &mut self.cells[i];
            cell.clear();
            i = i + 1;
        }
    }

    /// Empty every cell's assignment set, keeping the selection flags.
    pub fn clear_added(&mut self)
        requires
            old(self).wf(),
        ensures
            final(self).wf(),
            forall|i: int|
                0 <= i < grid_len() ==> (#[trigger] final(self).cells@[i]).selected == old(self).cells@[i].selected && final(self).cells@[i].name_set() =~= Set::<
                    Seq<char>,
                >::empty(),
    {
        let mut i: usize = 0;
        while i < self.cells.len()
            invariant
                self.cells@.len() == grid_len(),
                i <= self.cells@.len(),
                forall|k: int| 0 <= k < self.cells@.len() ==> (#[trigger] self.cells@[k]).wf(),
                forall|k: int|
                    0 <= k < i ==> (#[trigger] self.cells@[k]).selected == old(self).cells@[
                    k].selected && self.cells@[k].name_set() =~= Set::<Seq<char>>::empty(),
                forall|k: int|
                    i <= k < self.cells@.len() ==> #[trigger] self.cells@[k] == old(self).cells@[
                    k],
            decreases self.cells@.len() - i,
        {
            let cell = &mut self.cells[i];
            cell.clear_added();
            i = i + 1;
        }
    }

    /// Clear every cell's selection flag, keeping the assignments.
    pub fn deselect(&mut self)
        requires
            old(self).wf(),
        ensures
            final(self).wf(),
            forall|i: int|
                0 <= i < grid_len() ==> !(#[trigger] final(self).cells@[i]).selected && final(self).cells@[i].config_names == old(self).cells@[i].config_names,
    {
        let mut i: usize = 0;
        while i < self.cells.len()
            invariant
                self.cells@.len() == grid_len(),
                i <= self.cells@.len(),
                forall|k: int| 0 <= k < self.cells@.len() ==> (#[trigger] self.cells@[k]).wf(),
                forall|k: int|
                    0 <= k < i ==> !(#[trigger] self.cells@[k]).selected && self.cells@[
                    k].config_names == old(self).cells@[k].config_names,
                forall|k: int|
                    i <= k < self.cells@.len() ==> #[trigger] self.cells@[k] == old(self).cells@[
                    k],
            decreases self.cells@.len() - i,
        {
            let cell = &mut self.cells[i];
            cell.deselect();
            i = i + 1;
        }
    }

    /// Assign `name` to every currently selected cell.
    pub fn assign_to_selected(&mut self, name: &str)
        requires
            old(self).wf(),
        ensures
            final(self).wf(),
            forall|i: int|
                0 <= i < grid_len() ==> (#[trigger] final(self).cells@[i]).selected == old(self).cells@[i].selected,
            forall|i: int|
                0 <= i < grid_len() && old(self).cells@[i].selected ==> (#[trigger] final(self).cells@[i]).name_set() == old(self).cells@[i].name_set().insert(name@),
            forall|i: int|
                0 <= i < grid_len() && !old(self).cells@[i].selected ==> #[trigger] final(self).cells@[i] == old(self).cells@[i],
    {
        let mut i: usize = 0;
        while i < self.cells.len()
            invariant
                self.cells@.len() == grid_len(),
                i <= self.cells@.len(),
                forall|k: int| 0 <= k < self.cells@.len() ==> (#[trigger] self.cells@[k]).wf(),
                forall|k: int|
                    0 <= k < self.cells@.len() ==> (#[trigger] self.cells@[k]).selected == old(self).cells@[k].selected,
                forall|k: int|
                    0 <= k < i && old(self).cells@[k].selected ==> (#[trigger] self.cells@[
                    k]).name_set() == old(self).cells@[k].name_set().insert(name@),
                forall|k: int|
                    0 <= k < i && !old(self).cells@[k].selected ==> #[trigger] self.cells@[k]
                        == old(self).cells@[k],
                forall|k: int|
                    i <= k < self.cells@.len() ==> #[trigger] self.cells@[k] == old(self).cells@[
                    k],
            decreases self.cells@.len() - i,
        {
            if self.cells[i].selected {
                let owned = name.to_owned();
                let cell = &mut self.cells[i];
                cell.insert(owned);
            }
            i = i + 1;
        }
    }

    /// Remove `name` from every cell, selected or not.
    pub fn remove_name(&mut self, name: &str)
        requires
            old(self).wf(),
        ensures
            final(self).wf(),
            forall|i: int|
                0 <= i < grid_len() ==> (#[trigger] final(self).cells@[i]).selected == old(self).cells@[i].selected && final(self).cells@[i].name_set() == old(self).cells@[
                i].name_set().remove(name@),
    {
        let mut i: usize = 0;
        while i < self.cells.len()
            invariant
                self.cells@.len() == grid_len(),
                i <= self.cells@.len(),
                forall|k: int| 0 <= k < self.cells@.len() ==> (#[trigger] self.cells@[k]).wf(),
                forall|k: int|
                    0 <= k < i ==> (#[trigger] self.cells@[k]).selected == old(self).cells@[
                    k].selected && self.cells@[k].name_set() == old(self).cells@[
                    k].name_set().remove(name@),
                forall|k: int|
                    i <= k < self.cells@.len() ==> #[trigger] self.cells@[k] == old(self).cells@[
                    k],
            decreases self.cells@.len() - i,
        {
            let cell = &mut self.cells[i];
            cell.remove(name);
            i = i + 1;
        }
    }

    /// How many cells have `name` assigned.
    pub fn usage_count(&self, name: &str) -> (r: usize)
        requires
            self.wf(),
        ensures
            r as int == spec_usage(self.cells@, name@),
            r <= grid_len(),
    {
        let mut count: usize = 0;
        let mut i: usize = 0;
        while i < self.cells.len()
            invariant
                self.wf(),
                i <= self.cells@.len(),
                count <= i,
                count as int == spec_usage(self.cells@.take(i as int), name@),
            decreases self.cells@.len() - i,
        {
            proof {
                assert(self.cells@.take(i as int + 1).drop_last() =~= self.cells@.take(i as int));
                assert(self.cells@.take(i as int + 1).last() == self.cells@[i as int]);
            }
            if self.cells[i].contains(name) {
                count = count + 1;
            }
            i = i + 1;
        }
        proof {
            assert(self.cells@.take(self.cells@.len() as int) =~= self.cells@);
        }
        count
    }

    /// Select every highlighted cell that sits in the column of
    /// `weekday`; other cells keep their state.
    pub fn select_weekday(&mut self, anchor: &AnchorSpec, weekday: Weekday)
        requires
            old(self).wf(),
        ensures
            final(self).wf(),
            forall|i: int|
                0 <= i < grid_len() ==> (#[trigger] final(self).cells@[i]).config_names == old(self).cells@[i].config_names,
            forall|i: int|
                0 <= i < grid_len() ==> (#[trigger] final(self).cells@[i]).selected == (old(self).cells@[i].selected || (crate::calendar::cell_ok(*anchor, i)
                    && spec_is_highlighted(
                    *anchor,
                    crate::calendar::first_sunday_julian(*anchor) + i,
                ) && i % 7 == weekday_index(weekday))),
    {
        let column = crate::date::weekday_to_column(weekday);
        let mut i: usize = 0;
        while i < self.cells.len()
            invariant
                self.cells@.len() == grid_len(),
                i <= self.cells@.len(),
                forall|k: int| 0 <= k < self.cells@.len() ==> (#[trigger] self.cells@[k]).wf(),
                column as int == weekday_index(weekday),
                forall|k: int|
                    0 <= k < self.cells@.len() ==> (#[trigger] self.cells@[k]).config_names
                        == old(self).cells@[k].config_names,
                forall|k: int|
                    0 <= k < i ==> (#[trigger] self.cells@[k]).selected == (old(self).cells@[
                    k].selected || (crate::calendar::cell_ok(*anchor, k)
                        && spec_is_highlighted(
                        *anchor,
                        crate::calendar::first_sunday_julian(*anchor) + k,
                    ) && k % 7 == weekday_index(weekday))),
                forall|k: int|
                    i <= k < self.cells@.len() ==> (#[trigger] self.cells@[k]).selected == old(self).cells@[k].selected,
            decreases self.cells@.len() - i,
        {
            let highlighted = match cell_date(anchor, i) {
                Ok(date) => is_highlighted(anchor, &date),
                Err(_) => false,
            };
            if highlighted && (i % 7) as u8 == column {
                let cell = &mut self.cells[i];
                cell.select(true);
            }
            i = i + 1;
        }
    }
}

} // verus!
