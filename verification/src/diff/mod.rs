//! Diffs: the cells that change from one grid to another, kept as a
//! sparse list; how a diff is computed from two grids, applied to a grid,
//! and stacked with the diffs that follow it.

pub mod algebra;

use crate::automaton::AutomatonCell;
use crate::diff::algebra::{
    apply_spec, compute_spec, identity_diff, is_sparse, lemma_compute_same, lemma_stack_is_merged, merged,
    merged_all, net_transition, patched, stack_all_spec, stack_spec, DiffModel, Transition,
};
use crate::error::EngineError;
use crate::grid::{same_shape, Grid, GridModel, Position};
use vstd::prelude::*;

verus! {

/// One entry of a diff: a position and the transition of its cell.
#[derive(Copy, Debug, PartialEq, Eq)]
pub struct CellChange<C> {
    pub pos: Position,
    pub before: C,
    pub after: C,
}

impl<C: Copy> Clone for CellChange<C> {
    fn clone(&self) -> (copy: Self)
        ensures
            copy == *self,
    {
        *self
    }
}

impl<C> CellChange<C> {
    /// The transition that the entry records.
    pub open spec fn transition(&self) -> Transition<C> {
        Transition { before: self.before, after: self.after }
    }
}

/// The entries stand in row-major order of their positions, each
/// position once.
pub open spec fn in_order<C>(entries: Seq<CellChange<C>>) -> bool {
    forall|i: int, j: int|
        0 <= i < j < entries.len() ==> (#[trigger] entries[i]).pos.before((#[trigger] entries[j]).pos)
}

/// Every entry changes its cell.
pub open spec fn all_changing<C>(entries: Seq<CellChange<C>>) -> bool {
    forall|i: int| 0 <= i < entries.len() ==> (#[trigger] entries[i]).before != entries[i].after
}

/// One of the entries is about `pos`.
pub open spec fn touches<C>(entries: Seq<CellChange<C>>, pos: Position) -> bool {
    exists|i: int| 0 <= i < entries.len() && (#[trigger] entries[i]).pos == pos
}

/// The place of the entry about `pos` among the entries.
pub open spec fn entry_index<C>(entries: Seq<CellChange<C>>, pos: Position) -> int {
    choose|i: int| 0 <= i < entries.len() && (#[trigger] entries[i]).pos == pos
}

/// The diff that a list of entries stands for.
pub open spec fn entries_model<C>(entries: Seq<CellChange<C>>) -> DiffModel<C> {
    Map::new(
        |pos: Position| touches(entries, pos),
        |pos: Position| entries[entry_index(entries, pos)].transition(),
    )
}

/// In a list in order, each entry is the one that the diff holds for its
/// position.
pub proof fn lemma_entry_in_model<C>(entries: Seq<CellChange<C>>, i: int)
    requires
        in_order(entries),
        0 <= i < entries.len(),
    ensures
        entries_model(entries).dom().contains(entries[i].pos),
        entries_model(entries)[entries[i].pos] == entries[i].transition(),
{
}

/// The cells that change between two grids: a sparse list of entries,
/// kept in row-major order.
#[derive(Debug, PartialEq, Eq)]
pub struct Diff<C> {
    changes: Vec<CellChange<C>>,
}

impl<C> View for Diff<C> {
    type V = DiffModel<C>;

    /// The diff as a mathematical value.
    open spec fn view(&self) -> DiffModel<C> {
        entries_model(self.entries())
    }
}

impl<C> Diff<C> {
    /// The entries of the diff, as they are stored.
    pub closed spec fn entries(&self) -> Seq<CellChange<C>> {
        self.changes@
    }

    /// The entries are in order and each of them changes its cell.
    pub open spec fn wf(&self) -> bool {
        in_order(self.entries()) && all_changing(self.entries())
    }

    /// A sound diff is sparse: every position that it touches changes.
    pub proof fn lemma_sparse(&self)
        requires
            self.wf(),
        ensures
            is_sparse(self@),
    {
    }
}

/// The diffs of a list as mathematical values.
pub open spec fn models_of<C>(diffs: Seq<Diff<C>>) -> Seq<DiffModel<C>> {
    Seq::new(diffs.len(), |i: int| diffs[i]@)
}

impl<C: AutomatonCell> Diff<C> {
    /// The identity: a diff without entries.
    pub fn new() -> (diff: Diff<C>)
        ensures
            diff.wf(),
            diff@ == identity_diff::<C>(),
    {
        let diff = Diff { changes: Vec::new() };
        diff
    }

    /// Tells whether the diff is the identity.
    pub fn is_empty(&self) -> (empty: bool)
        ensures
            empty <==> self@ == identity_diff::<C>(),
    {
        let empty = self.changes.len() == 0;
        proof {
            if empty {
                assert(self@ =~= identity_diff::<C>());
            } else {
                assert(self@.dom().contains(self.entries()[0].pos));
            }
        }
        empty
    }

    /// The number of entries.
    pub fn len(&self) -> (count: usize)
        ensures
            count == self.entries().len(),
    {
        self.changes.len()
    }

    /// The entries of the diff, in row-major order of their positions.
    pub fn changes(&self) -> (entries: &Vec<CellChange<C>>)
        ensures
            entries@ == self.entries(),
    {
        &self.changes
    }

    /// The entry about `pos`, if the diff touches `pos`.
    pub fn get(&self, pos: &Position) -> (found: Option<CellChange<C>>)
        requires
            self.wf(),
        ensures
            match found {
                Some(change) => change.pos == *pos && self@.dom().contains(*pos) && self@[*pos]
                    == change.transition(),
                None => !self@.dom().contains(*pos),
            },
    {
        let mut at: usize = 0;
        while at < self.changes.len()
            invariant
                at <= self.changes.len(),
                self.wf(),
                forall|i: int| 0 <= i < at ==> (#[trigger] self.entries()[i]).pos != *pos,
            decreases self.changes.len() - at,
        {
            if self.changes[at].pos == *pos {
                proof {
                    lemma_entry_in_model(self.entries(), at as int);
                }
                return Some(self.changes[at]);
            }
            at += 1;
        }
        None
    }

    /// This diff followed by `next`, as one diff.
    pub fn stack(&self, next: &Diff<C>) -> (stacked: Diff<C>)
        requires
            self.wf(),
            next.wf(),
        ensures
            stacked.wf(),
            stacked@ == stack_spec(self@, next@),
    {
        Diff { changes: merge(&self.changes, &next.changes, true) }
    }

    /// The diffs of `diffs` stacked into one diff, from left to right. No
    /// diffs give the identity.
    pub fn stack_mul(diffs: &[Diff<C>]) -> (stacked: Diff<C>)
        requires
            forall|i: int| 0 <= i < diffs@.len() ==> (#[trigger] diffs@[i]).wf(),
        ensures
            stacked.wf(),
            stacked@ == stack_all_spec(models_of(diffs@)),
    {
        let ghost models = models_of(diffs@);
        let mut changes: Vec<CellChange<C>> = Vec::new();
        let mut done: usize = 0;
        while done < diffs.len()
            invariant
                done <= diffs@.len(),
                models == models_of(diffs@),
                forall|i: int| 0 <= i < diffs@.len() ==> (#[trigger] diffs@[i]).wf(),
                in_order(changes@),
                done < diffs@.len() ==> entries_model(changes@) == merged_all(models.subrange(0, done as int)),
                done == diffs@.len() ==> all_changing(changes@) && entries_model(changes@) == stack_all_spec(
                    models.subrange(0, done as int),
                ),
            decreases diffs.len() - done,
        {
            // Positions that end where they began are dropped with the last diff only.
            let last = done + 1 == diffs.len();
            proof {
                let taken = models.subrange(0, done + 1);
                assert(taken.drop_last() =~= models.subrange(0, done as int));
                lemma_stack_is_merged(merged_all(models.subrange(0, done as int)), diffs@[done as int]@);
            }
            changes = merge(&changes, &diffs[done].changes, last);
            done += 1;
        }
        assert(models.subrange(0, done as int) =~= models);
        Diff { changes }
    }
}

/// Merges two lists of entries in order into one: the net transition of
/// each position that either list touches, in order. With `prune`, the
/// positions that end where they began are left out.
fn merge<C: AutomatonCell>(first: &Vec<CellChange<C>>, second: &Vec<CellChange<C>>, prune: bool) -> (out: Vec<
    CellChange<C>,
>)
    requires
        in_order(first@),
        in_order(second@),
    ensures
        in_order(out@),
        prune ==> all_changing(out@) && entries_model(out@) == stack_spec(
            entries_model(first@),
            entries_model(second@),
        ),
        !prune ==> entries_model(out@) == merged(entries_model(first@), entries_model(second@)),
{
    let ghost target = if prune {
        stack_spec(entries_model(first@), entries_model(second@))
    } else {
        merged(entries_model(first@), entries_model(second@))
    };
    let mut out: Vec<CellChange<C>> = Vec::new();
    let mut i: usize = 0;
    let mut j: usize = 0;
    while i < first.len() || j < second.len()
        invariant
            in_order(first@),
            in_order(second@),
            target == if prune {
                stack_spec(entries_model(first@), entries_model(second@))
            } else {
                merged(entries_model(first@), entries_model(second@))
            },
            i <= first@.len(),
            j <= second@.len(),
            in_order(out@),
            prune ==> all_changing(out@),
            forall|k: int|
                0 <= k < out@.len() ==> target.dom().contains((#[trigger] out@[k]).pos) && target[out@[k].pos]
                    == out@[k].transition(),
            forall|k: int|
                0 <= k < out@.len() && i < first@.len() ==> (#[trigger] out@[k]).pos.before(first@[i as int].pos),
            forall|k: int|
                0 <= k < out@.len() && j < second@.len() ==> (#[trigger] out@[k]).pos.before(
                    second@[j as int].pos,
                ),
            forall|k: int| 0 <= k < i && j < second@.len() ==> (#[trigger] first@[k]).pos.before(second@[j as int].pos),
            forall|k: int| 0 <= k < j && i < first@.len() ==> (#[trigger] second@[k]).pos.before(first@[i as int].pos),
            forall|k: int|
                0 <= k < i && target.dom().contains((#[trigger] first@[k]).pos) ==> touches(out@, first@[k].pos),
            forall|k: int|
                0 <= k < j && target.dom().contains((#[trigger] second@[k]).pos) ==> touches(out@, second@[k].pos),
        decreases (first@.len() - i) + (second@.len() - j),
    {
        let ghost old_out = out@;
        let take_first = i < first.len() && (j >= second.len() || first[i].pos.is_before(&second[j].pos));
        let take_second = !take_first && j < second.len() && (i >= first.len() || second[j].pos.is_before(
            &first[i].pos,
        ));
        // The net transition at the position that comes next.
        let change = if take_first {
            first[i]
        } else if take_second {
            second[j]
        } else {
            CellChange { pos: first[i].pos, before: first[i].before, after: second[j].after }
        };
        proof {
            C::lemma_eq();
            if take_first {
                lemma_entry_in_model(first@, i as int);
            } else if take_second {
                lemma_entry_in_model(second@, j as int);
            } else {
                lemma_entry_in_model(first@, i as int);
                lemma_entry_in_model(second@, j as int);
            }
        }
        if !prune || change.before != change.after {
            out.push(change);
            proof {
                assert(out@[old_out.len() as int].pos == change.pos);
                lemma_touches_push(old_out, change);
            }
        }
        if !take_second {
            i += 1;
        }
        if !take_first {
            j += 1;
        }
    }
    out
}

impl<C: AutomatonCell> Grid<C> {
    /// The diff from this grid to `other`, a grid of the same size: every
    /// position is looked at, and those at which the two grids differ are
    /// recorded.
    pub fn diff(&self, other: &Grid<C>) -> (diff: Diff<C>)
        requires
            self.wf(),
            other.wf(),
            self.model().dim == other.model().dim,
        ensures
            diff.wf(),
            diff@ == compute_spec(self.model(), other.model()),
    {
        let dim = self.dim();
        let ghost source = self.model();
        let ghost target = compute_spec(self.model(), other.model());
        let mut changes: Vec<CellChange<C>> = Vec::new();
        let mut row: usize = 0;
        while row < dim.nb_rows
            invariant
                self.wf(),
                other.wf(),
                source == self.model(),
                dim == source.dim,
                dim == other.model().dim,
                target == compute_spec(self.model(), other.model()),
                row <= dim.nb_rows,
                in_order(changes@),
                all_changing(changes@),
                forall|k: int|
                    0 <= k < changes@.len() ==> {
                        &&& (#[trigger] changes@[k]).pos.row < row
                        &&& target.dom().contains(changes@[k].pos)
                        &&& target[changes@[k].pos] == changes@[k].transition()
                    },
                forall|pos: Position| #[trigger]
                    target.dom().contains(pos) && pos.row < row ==> touches(changes@, pos),
            decreases dim.nb_rows - row,
        {
            let mut col: usize = 0;
            while col < dim.nb_cols
                invariant
                    self.wf(),
                    other.wf(),
                    source == self.model(),
                    dim == source.dim,
                    dim == other.model().dim,
                    target == compute_spec(self.model(), other.model()),
                    row < dim.nb_rows,
                    col <= dim.nb_cols,
                    in_order(changes@),
                    all_changing(changes@),
                    forall|k: int|
                        0 <= k < changes@.len() ==> {
                            &&& (#[trigger] changes@[k]).pos.before(Position { row, col })
                            &&& target.dom().contains(changes@[k].pos)
                            &&& target[changes@[k].pos] == changes@[k].transition()
                        },
                    forall|pos: Position| #[trigger]
                        target.dom().contains(pos) && pos.before(Position { row, col }) ==> touches(
                            changes@,
                            pos,
                        ),
                decreases dim.nb_cols - col,
            {
                let pos = Position::new(row, col);
                let before = self.get(&pos);
                let after = other.get(&pos);
                proof {
                    C::lemma_eq();
                    self.model().lemma_resolve_inside(pos);
                    other.model().lemma_resolve_inside(pos);
                }
                let ghost old_changes = changes@;
                if before != after {
                    let change = CellChange { pos, before, after };
                    changes.push(change);
                    proof {
                        lemma_touches_push(old_changes, change);
                        assert(changes@[old_changes.len() as int].pos == pos);
                    }
                }
                col += 1;
            }
            row += 1;
        }
        let diff = Diff { changes };
        diff
    }

    /// Applies `diff` to the grid: where every entry lies inside the grid
    /// and finds the state that it starts from, the grid comes back with
    /// each entry's new state written; otherwise the diff does not belong
    /// to this grid, and nothing comes back but the mismatch.
    pub fn apply_diff(self, diff: &Diff<C>) -> (result: Result<Grid<C>, EngineError>)
        requires
            self.wf(),
            diff.wf(),
        ensures
            match result {
                Ok(grid) => grid.wf() && apply_spec(self.model(), diff@) == Ok::<GridModel<C>, EngineError>(
                    grid.model(),
                ),
                Err(error) => apply_spec(self.model(), diff@) == Err::<GridModel<C>, EngineError>(error),
            },
    {
        let ghost source = self.model();
        let ghost entries = diff.entries();
        let dim = self.dim();
        let mut grid = self;
        let mut done: usize = 0;
        while done < diff.changes.len()
            invariant
                entries == diff.changes@,
                in_order(entries),
                done <= entries.len(),
                source == self.model(),
                source.wf(),
                grid.wf(),
                dim == source.dim,
                same_shape(grid.model(), source),
                forall|k: int|
                    0 <= k < done ==> {
                        &&& source.dim.contains((#[trigger] entries[k]).pos)
                        &&& source.cells[entries[k].pos] == entries[k].before
                        &&& grid.model().cells[entries[k].pos] == entries[k].after
                    },
                forall|pos: Position|
                    source.dim.contains(pos) && !touches(entries.subrange(0, done as int), pos)
                        ==> #[trigger] grid.model().cells[pos] == source.cells[pos],
            decreases entries.len() - done,
        {
            let change = diff.changes[done];
            proof {
                C::lemma_eq();
                lemma_entry_in_model(entries, done as int);
            }
            if !dim.holds(&change.pos) {
                return Err(EngineError::DiffMismatch);
            }
            proof {
                grid.model().lemma_resolve_inside(change.pos);
            }
            if grid.get(&change.pos) != change.before {
                return Err(EngineError::DiffMismatch);
            }
            grid.set(&change.pos, change.after);
            done += 1;
            proof {
                let now = entries.subrange(0, done as int);
                assert(now[done - 1].pos == change.pos);
            }
        }
        proof {
            grid.model().lemma_equal(patched(source, diff@));
        }
        Ok(grid)
    }

    /// Tells whether `other` is the same grid: of the same shape, with
    /// the same cell at every position.
    pub fn same_as(&self, other: &Grid<C>) -> (same: bool)
        requires
            self.wf(),
            other.wf(),
        ensures
            same == (self.model() == other.model()),
    {
        if !self.same_shape_as(other) {
            return false;
        }
        let changed = self.diff(other);
        let same = changed.is_empty();
        proof {
            if same {
                assert forall|pos: Position| self.model().dim.contains(pos) implies #[trigger] self.model().cells[pos]
                    == other.model().cells[pos] by {
                    assert(!compute_spec(self.model(), other.model()).dom().contains(pos));
                }
                self.model().lemma_equal(other.model());
            } else {
                lemma_compute_same(self.model());
            }
        }
        same
    }
}

/// An entry that a list touches is still touched after a push.
proof fn lemma_touches_push<C>(entries: Seq<CellChange<C>>, change: CellChange<C>)
    ensures
        forall|pos: Position| touches(entries, pos) ==> touches(#[trigger] entries.push(change), pos),
{
    assert forall|pos: Position| touches(entries, pos) implies touches(#[trigger] entries.push(change), pos) by {
        let k = entry_index(entries, pos);
        assert(entries.push(change)[k].pos == pos);
    }
}

} // verus!
