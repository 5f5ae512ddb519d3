//! The universe: a grid together with the rule of its cell type, and the
//! step from one generation to the next.

use crate::automaton::CPUCell;
use crate::diff::algebra::{apply_spec, compute_spec, lemma_apply_compute};
use crate::error::EngineError;
use crate::grid::{Grid, GridModel, Position};
use vstd::prelude::*;

verus! {

/// The generation that follows `grid`: every cell is replaced by what the
/// rule of `C` makes of it and its neighborhood in `grid`. Size and
/// boundary policy stay.
pub open spec fn step_spec<C: CPUCell>(grid: GridModel<C>) -> GridModel<C> {
    GridModel {
        cells: Map::new(
            |pos: Position| grid.dim.contains(pos),
            |pos: Position| C::spec_update(grid.cells[pos], grid.neighbors(pos, C::spec_neighborhood())),
        ),
        ..grid
    }
}

/// The generation reached from `grid` after `count` steps.
pub open spec fn nth_generation<C: CPUCell>(grid: GridModel<C>, count: nat) -> GridModel<C>
    decreases count,
{
    if count == 0 {
        grid
    } else {
        step_spec(nth_generation(grid, (count - 1) as nat))
    }
}

/// A step keeps a grid complete.
pub proof fn lemma_step_wf<C: CPUCell>(grid: GridModel<C>)
    requires
        grid.wf(),
    ensures
        step_spec(grid).wf(),
        step_spec(grid).dim == grid.dim,
        step_spec(grid).boundary == grid.boundary,
{
}

/// Applying to a grid the diff from it to the generation that follows
/// it gives that generation.
pub proof fn lemma_apply_step_diff<C: CPUCell>(grid: GridModel<C>)
    requires
        grid.wf(),
    ensures
        apply_spec(grid, compute_spec(grid, step_spec(grid))) == Ok::<GridModel<C>, EngineError>(
            step_spec(grid),
        ),
{
    lemma_step_wf(grid);
    lemma_apply_compute(grid, step_spec(grid));
}

/// Where each generation of a sequence follows from the one before it by
/// a step, the generation with number `gen` is the one that `gen` steps
/// reach from the first.
pub proof fn lemma_replay<C: CPUCell>(generations: Seq<GridModel<C>>, gen: int)
    requires
        0 <= gen < generations.len(),
        forall|i: int|
            0 <= i < generations.len() - 1 ==> #[trigger] generations[i + 1] == step_spec(generations[i]),
    ensures
        generations[gen] == nth_generation(generations[0], gen as nat),
    decreases gen,
{
    if gen > 0 {
        lemma_replay(generations, gen - 1);
        assert(generations[(gen - 1) + 1] == step_spec(generations[gen - 1]));
    }
}

/// A grid and the rule of its cells.
pub struct Universe<C> {
    grid: Grid<C>,
}

impl<C: CPUCell> View for Universe<C> {
    type V = GridModel<C>;

    /// The current generation as a mathematical value.
    closed spec fn view(&self) -> GridModel<C> {
        self.grid.model()
    }
}

impl<C: CPUCell> Universe<C> {
    /// The universe is complete when its grid is.
    pub closed spec fn wf(&self) -> bool {
        self.grid.wf()
    }

    /// A universe whose current generation is `grid`.
    pub fn new(grid: Grid<C>) -> (universe: Universe<C>)
        requires
            grid.wf(),
        ensures
            universe.wf(),
            universe@ == grid.model(),
    {
        Universe { grid }
    }

    /// The current generation.
    pub fn grid(&self) -> (grid: &Grid<C>)
        ensures
            grid.model() == self@,
            self.wf() ==> grid.wf(),
    {
        &self.grid
    }

    /// The next generation. The current one is left as it is.
    pub fn step(&self) -> (next: Universe<C>)
        requires
            self.wf(),
        ensures
            next.wf(),
            next@ == step_spec(self@),
    {
        let dim = self.grid.dim();
        let mut output: Grid<C> = Grid::new(dim, self.grid.boundary());
        let ghost source = self.grid.model();
        let ghost target = step_spec(source);
        let mut row: usize = 0;
        while row < dim.nb_rows
            invariant
                self.grid.wf(),
                source == self.grid.model(),
                target == step_spec(source),
                dim == source.dim,
                output.wf(),
                output.model().dim == dim,
                output.model().boundary == source.boundary,
                row <= dim.nb_rows,
                forall|pos: Position|
                    dim.contains(pos) && pos.row < row ==> #[trigger] output.model().cells[pos]
                        == target.cells[pos],
            decreases dim.nb_rows - row,
        {
            let mut col: usize = 0;
            while col < dim.nb_cols
                invariant
                    self.grid.wf(),
                    source == self.grid.model(),
                    target == step_spec(source),
                    dim == source.dim,
                    output.wf(),
                    output.model().dim == dim,
                    output.model().boundary == source.boundary,
                    row < dim.nb_rows,
                    col <= dim.nb_cols,
                    forall|pos: Position|
                        dim.contains(pos) && (pos.row < row || (pos.row == row && pos.col < col))
                            ==> #[trigger] output.model().cells[pos] == target.cells[pos],
                decreases dim.nb_cols - col,
            {
                let pos = Position::new(row, col);
                let view = self.grid.view(pos);
                proof {
                    source.lemma_resolve_inside(pos);
                }
                let next = C::update(&view);
                output.set(&pos, next);
                col += 1;
            }
            row += 1;
        }
        proof {
            output.model().lemma_equal(target);
        }
        Universe { grid: output }
    }
}

} // verus!
