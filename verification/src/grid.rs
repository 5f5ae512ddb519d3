//! The grid: a dense rectangle of cells with a policy for what lies beyond
//! its edges, and the reader that an update rule looks through.

use crate::automaton::AutomatonCell;
use crate::error::EngineError;
use vstd::prelude::*;

verus! {

/// The size of a grid. A grid has at least one row and one column.
#[derive(Clone, Copy, Debug, PartialEq, Eq, Structural, Hash)]
pub struct Dimensions {
    pub nb_rows: usize,
    pub nb_cols: usize,
}

/// A place in a grid: row and column, counted from zero.
#[derive(Clone, Copy, Debug, PartialEq, Eq, Structural, Hash)]
pub struct Position {
    pub row: usize,
    pub col: usize,
}

/// A signed step from one position to another.
#[derive(Clone, Copy, Debug, PartialEq, Eq, Structural, Hash)]
pub struct RelCoords {
    pub drow: i64,
    pub dcol: i64,
}

/// What a read beyond the edges of a grid finds.
#[derive(Copy, Debug, PartialEq, Eq)]
pub enum Boundary<C> {
    /// Rows and columns wrap around.
    Toroidal,
    /// Every place outside the grid holds this cell.
    Fixed(C),
}

impl<C: Copy> Clone for Boundary<C> {
    fn clone(&self) -> (copy: Self)
        ensures
            copy == *self,
    {
        *self
    }
}

impl Dimensions {
    pub fn new(nb_rows: usize, nb_cols: usize) -> (dim: Dimensions)
        ensures
            dim.nb_rows == nb_rows,
            dim.nb_cols == nb_cols,
    {
        Dimensions { nb_rows, nb_cols }
    }

    /// Both sides are positive.
    pub open spec fn is_valid(&self) -> bool {
        self.nb_rows > 0 && self.nb_cols > 0
    }

    /// The position lies inside a grid of this size.
    pub open spec fn contains(&self, pos: Position) -> bool {
        pos.row < self.nb_rows && pos.col < self.nb_cols
    }

    /// The number of cells in a grid of this size.
    pub open spec fn area(&self) -> int {
        self.nb_rows * self.nb_cols
    }

    /// Tells whether the position lies inside a grid of this size.
    pub fn holds(&self, pos: &Position) -> (inside: bool)
        ensures
            inside == self.contains(*pos),
    {
        pos.row < self.nb_rows && pos.col < self.nb_cols
    }
}

impl Position {
    pub fn new(row: usize, col: usize) -> (pos: Position)
        ensures
            pos.row == row,
            pos.col == col,
    {
        Position { row, col }
    }

    /// Row-major order: by row first, then by column.
    pub open spec fn before(&self, other: Position) -> bool {
        self.row < other.row || (self.row == other.row && self.col < other.col)
    }

    /// Tells whether this position comes before `other` in row-major order.
    pub fn is_before(&self, other: &Position) -> (earlier: bool)
        ensures
            earlier == self.before(*other),
    {
        self.row < other.row || (self.row == other.row && self.col < other.col)
    }
}

impl RelCoords {
    pub fn new(drow: i64, dcol: i64) -> (rel: RelCoords)
        ensures
            rel.drow == drow,
            rel.dcol == dcol,
    {
        RelCoords { drow, dcol }
    }
}

/// A grid as a mathematical value: its size, its boundary policy, and the
/// cell at each position inside it.
pub struct GridModel<C> {
    pub dim: Dimensions,
    pub boundary: Boundary<C>,
    pub cells: Map<Position, C>,
}

impl<C> GridModel<C> {
    /// The size is valid and the cells are exactly those inside it.
    pub open spec fn wf(self) -> bool {
        &&& self.dim.is_valid()
        &&& forall|pos: Position| #[trigger] self.cells.dom().contains(pos) <==> self.dim.contains(pos)
    }

    /// The grid of the given size in which every cell is `cell`.
    pub open spec fn filled(dim: Dimensions, boundary: Boundary<C>, cell: C) -> GridModel<C> {
        GridModel { dim, boundary, cells: Map::new(|pos: Position| dim.contains(pos), |pos: Position| cell) }
    }

    /// The same grid with `cell` written at `pos`.
    pub open spec fn with_cell(self, pos: Position, cell: C) -> GridModel<C> {
        GridModel { cells: self.cells.insert(pos, cell), ..self }
    }

    /// The cell that a read at row `row` and column `col` finds, whether the
    /// place is inside the grid or not: inside, the cell stored there;
    /// outside, what the boundary policy gives.
    pub open spec fn resolve(self, row: int, col: int) -> C {
        match self.boundary {
            Boundary::Toroidal => self.cells[Position {
                row: (row % (self.dim.nb_rows as int)) as usize,
                col: (col % (self.dim.nb_cols as int)) as usize,
            }],
            Boundary::Fixed(cell) => if 0 <= row < self.dim.nb_rows && 0 <= col < self.dim.nb_cols {
                self.cells[Position { row: row as usize, col: col as usize }]
            } else {
                cell
            },
        }
    }

    /// The cell found one step `rel` away from `pos`.
    pub open spec fn neighbor(self, pos: Position, rel: RelCoords) -> C {
        self.resolve(pos.row + rel.drow, pos.col + rel.dcol)
    }

    /// The cells found from `pos` along each step of `rels`, in the order of `rels`.
    pub open spec fn neighbors(self, pos: Position, rels: Seq<RelCoords>) -> Seq<C> {
        Seq::new(rels.len(), |i: int| self.neighbor(pos, rels[i]))
    }

    /// A read inside the grid finds the cell stored there, whatever the
    /// boundary policy.
    pub proof fn lemma_resolve_inside(self, pos: Position)
        requires
            self.wf(),
            self.dim.contains(pos),
        ensures
            self.resolve(pos.row as int, pos.col as int) == self.cells[pos],
    {
        vstd::arithmetic::div_mod::lemma_small_mod(pos.row as nat, self.dim.nb_rows as nat);
        vstd::arithmetic::div_mod::lemma_small_mod(pos.col as nat, self.dim.nb_cols as nat);
    }

    /// Two grids of one size and policy that agree on every cell are the same grid.
    pub proof fn lemma_equal(self, other: GridModel<C>)
        requires
            self.wf(),
            other.wf(),
            self.dim == other.dim,
            self.boundary == other.boundary,
            forall|pos: Position| self.dim.contains(pos) ==> #[trigger] self.cells[pos] == other.cells[pos],
        ensures
            self == other,
    {
        assert(self.cells =~= other.cells);
    }
}

/// The grid after the writes of `writes`, one after the other.
pub open spec fn written<C>(grid: GridModel<C>, writes: Seq<(Position, C)>) -> GridModel<C>
    decreases writes.len(),
{
    if writes.len() == 0 {
        grid
    } else {
        written(grid, writes.drop_last()).with_cell(writes.last().0, writes.last().1)
    }
}

/// The cell that the last write at `pos` wrote, if `writes` holds a write
/// at `pos`.
pub open spec fn last_write<C>(writes: Seq<(Position, C)>, pos: Position) -> Option<C>
    decreases writes.len(),
{
    if writes.len() == 0 {
        None
    } else if writes.last().0 == pos {
        Some(writes.last().1)
    } else {
        last_write(writes.drop_last(), pos)
    }
}

/// After any sequence of writes inside a grid, a read at a position
/// inside it finds the cell that the last write at that position wrote,
/// or the cell that was there before where nothing was written.
pub proof fn lemma_read_after_writes<C>(grid: GridModel<C>, writes: Seq<(Position, C)>, pos: Position)
    requires
        grid.wf(),
        forall|i: int| 0 <= i < writes.len() ==> grid.dim.contains((#[trigger] writes[i]).0),
        grid.dim.contains(pos),
    ensures
        written(grid, writes).wf(),
        same_shape(written(grid, writes), grid),
        written(grid, writes).resolve(pos.row as int, pos.col as int) == match last_write(writes, pos) {
            Some(cell) => cell,
            None => grid.cells[pos],
        },
    decreases writes.len(),
{
    if writes.len() == 0 {
        grid.lemma_resolve_inside(pos);
    } else {
        let earlier = writes.drop_last();
        lemma_read_after_writes(grid, earlier, pos);
        let previous = written(grid, earlier);
        let now = written(grid, writes);
        previous.lemma_resolve_inside(pos);
        now.lemma_resolve_inside(pos);
    }
}

/// The grids have one size and one boundary policy.
pub open spec fn same_shape<C>(a: GridModel<C>, b: GridModel<C>) -> bool {
    a.dim == b.dim && a.boundary == b.boundary
}

/// A dense rectangle of cells, stored row by row.
#[derive(Debug, PartialEq, Eq)]
pub struct Grid<C> {
    dim: Dimensions,
    boundary: Boundary<C>,
    cells: Vec<C>,
}

/// Where the cell at `pos` stands in the row-by-row storage.
spec fn storage_index(dim: Dimensions, pos: Position) -> int {
    pos.row * dim.nb_cols + pos.col
}

/// Inside the grid, the storage index stays below the number of cells.
proof fn lemma_storage_index_bound(dim: Dimensions, pos: Position)
    requires
        dim.contains(pos),
    ensures
        0 <= storage_index(dim, pos) < dim.area(),
{
    assert(pos.row * dim.nb_cols + pos.col < dim.nb_rows * dim.nb_cols) by (nonlinear_arith)
        requires
            pos.row < dim.nb_rows,
            pos.col < dim.nb_cols,
    ;
    assert(0 <= pos.row * dim.nb_cols) by (nonlinear_arith);
}

/// Inside the grid, two positions with one storage index are one position.
proof fn lemma_storage_index_injective(dim: Dimensions, p: Position, q: Position)
    requires
        dim.contains(p),
        dim.contains(q),
        storage_index(dim, p) == storage_index(dim, q),
    ensures
        p == q,
{
    let cols = dim.nb_cols as int;
    let (pr, pc, qr, qc) = (p.row as int, p.col as int, q.row as int, q.col as int);
    assert(pr == qr) by (nonlinear_arith)
        requires
            pr * cols + pc == qr * cols + qc,
            0 <= pc < cols,
            0 <= qc < cols,
            0 <= pr,
            0 <= qr,
    ;
}

/// For a negative `value`, the remainder of the division by `modulus`
/// mirrors that of `-(value + 1)`.
proof fn lemma_negative_remainder(value: int, modulus: int)
    requires
        value < 0,
        modulus > 0,
    ensures
        value % modulus == modulus - 1 - ((-(value + 1)) % modulus),
{
    let flipped = -(value + 1);
    let quotient = flipped / modulus;
    let rest = flipped % modulus;
    vstd::arithmetic::div_mod::lemma_fundamental_div_mod(flipped, modulus);
    vstd::arithmetic::div_mod::lemma_mod_bound(flipped, modulus);
    assert(value == (-(quotient + 1)) * modulus + (modulus - 1 - rest)) by (nonlinear_arith)
        requires
            flipped == modulus * quotient + rest,
            flipped == -(value + 1),
    ;
    vstd::arithmetic::div_mod::lemma_fundamental_div_mod_converse(
        value,
        modulus,
        -(quotient + 1),
        modulus - 1 - rest,
    );
}

/// The remainder of `value` by `modulus`, between zero and `modulus`, for
/// negative values too.
pub fn wrap(value: i128, modulus: usize) -> (wrapped: usize)
    requires
        modulus > 0,
    ensures
        wrapped == (value as int) % (modulus as int),
        wrapped < modulus,
{
    let modulus_wide: i128 = modulus as i128;
    if value >= 0 {
        proof {
            vstd::arithmetic::div_mod::lemma_mod_bound(value as int, modulus as int);
        }
        (value % modulus_wide) as usize
    } else {
        let flipped: i128 = -(value + 1);
        proof {
            lemma_negative_remainder(value as int, modulus as int);
            vstd::arithmetic::div_mod::lemma_mod_bound(flipped as int, modulus as int);
        }
        (modulus_wide - 1 - flipped % modulus_wide) as usize
    }
}

impl<C: AutomatonCell> Grid<C> {
    /// The storage holds one cell for each position.
    pub closed spec fn inv(&self) -> bool {
        self.cells@.len() == self.dim.area()
    }

    /// The grid as a mathematical value.
    pub closed spec fn model(&self) -> GridModel<C> {
        GridModel {
            dim: self.dim,
            boundary: self.boundary,
            cells: Map::new(
                |pos: Position| self.dim.contains(pos),
                |pos: Position| self.cells@[storage_index(self.dim, pos)],
            ),
        }
    }

    /// The grid is complete: every operation keeps it so.
    pub open spec fn wf(&self) -> bool {
        self.inv() && self.model().wf()
    }

    /// A grid of the given size and boundary policy in which every cell is
    /// the cell type's default.
    pub fn new(dim: Dimensions, boundary: Boundary<C>) -> (grid: Grid<C>)
        requires
            dim.is_valid(),
            dim.area() <= usize::MAX,
        ensures
            grid.wf(),
            grid.model() == GridModel::filled(dim, boundary, C::spec_default()),
    {
        let total: usize = dim.nb_rows * dim.nb_cols;
        let mut cells: Vec<C> = Vec::new();
        let mut filled: usize = 0;
        while filled < total
            invariant
                filled <= total,
                cells@.len() == filled,
                forall|i: int| 0 <= i < filled ==> cells@[i] == C::spec_default(),
            decreases total - filled,
        {
            proof {
                C::lemma_default();
            }
            cells.push(C::default());
            filled += 1;
        }
        let grid = Grid { dim, boundary, cells };
        proof {
            assert forall|pos: Position| dim.contains(pos) implies #[trigger] grid.model().cells[pos]
                == C::spec_default() by {
                lemma_storage_index_bound(dim, pos);
            }
            assert(grid.model().cells =~= GridModel::filled(dim, boundary, C::spec_default()).cells);
        }
        grid
    }

    /// The size of the grid. The cells of a complete grid can be counted
    /// in a `usize`.
    pub fn dim(&self) -> (dim: Dimensions)
        ensures
            dim == self.model().dim,
            self.wf() ==> dim.area() <= usize::MAX,
    {
        proof {
            assert(self.cells@.len() == self.cells.len());
        }
        self.dim
    }

    /// The boundary policy that the grid was made with.
    pub fn boundary(&self) -> (boundary: Boundary<C>)
        ensures
            boundary == self.model().boundary,
    {
        self.boundary
    }

    /// Writes `cell` at `pos`, which lies inside the grid.
    pub fn set(&mut self, pos: &Position, cell: C)
        requires
            old(self).wf(),
            old(self).model().dim.contains(*pos),
        ensures
            final(self).wf(),
            final(self).model() == old(self).model().with_cell(*pos, cell),
    {
        proof {
            lemma_storage_index_bound(self.dim, *pos);
            assert(self.cells@.len() == self.cells.len());
            assert(0 <= pos.row * self.dim.nb_cols) by (nonlinear_arith);
        }
        let index: usize = pos.row * self.dim.nb_cols + pos.col;
        self.cells.set(index, cell);
        proof {
            assert forall|other: Position| self.dim.contains(other) implies #[trigger] self.model().cells[other]
                == old(self).model().with_cell(*pos, cell).cells[other] by {
                lemma_storage_index_bound(self.dim, other);
                if other != *pos {
                    if storage_index(self.dim, other) == storage_index(self.dim, *pos) {
                        lemma_storage_index_injective(self.dim, other, *pos);
                    }
                }
            }
            assert(self.model().cells =~= old(self).model().with_cell(*pos, cell).cells);
        }
    }

    /// Writes `cell` at `pos` if `pos` lies inside the grid, and refuses the
    /// write otherwise.
    pub fn try_set(&mut self, pos: &Position, cell: C) -> (done: Result<(), EngineError>)
        requires
            old(self).wf(),
        ensures
            final(self).wf(),
            old(self).model().dim.contains(*pos) ==> {
                &&& done.is_ok()
                &&& final(self).model() == old(self).model().with_cell(*pos, cell)
            },
            !old(self).model().dim.contains(*pos) ==> {
                &&& done == Err::<(), EngineError>(EngineError::OutOfRangePosition)
                &&& final(self).model() == old(self).model()
            },
    {
        if self.dim.holds(pos) {
            self.set(pos, cell);
            Ok(())
        } else {
            Err(EngineError::OutOfRangePosition)
        }
    }

    /// Tells whether `other` has the size and the boundary policy of this
    /// grid.
    pub fn same_shape_as(&self, other: &Grid<C>) -> (same: bool)
        ensures
            same == same_shape(self.model(), other.model()),
    {
        proof {
            C::lemma_eq();
        }
        let same_boundary = match (self.boundary, other.boundary) {
            (Boundary::Toroidal, Boundary::Toroidal) => true,
            (Boundary::Fixed(mine), Boundary::Fixed(theirs)) => mine == theirs,
            _ => false,
        };
        self.dim == other.dim && same_boundary
    }

    /// Reads at row `row` and column `col`, inside the grid or not.
    fn lookup(&self, row: i128, col: i128) -> (cell: C)
        requires
            self.wf(),
        ensures
            cell == self.model().resolve(row as int, col as int),
    {
        match self.boundary {
            Boundary::Toroidal => {
                let pos = Position { row: wrap(row, self.dim.nb_rows), col: wrap(col, self.dim.nb_cols) };
                self.cell_at(&pos)
            },
            Boundary::Fixed(cell) => {
                if 0 <= row && row < self.dim.nb_rows as i128 && 0 <= col && col < self.dim.nb_cols as i128 {
                    let pos = Position { row: row as usize, col: col as usize };
                    self.cell_at(&pos)
                } else {
                    cell
                }
            },
        }
    }

    /// The cell stored at `pos`, which lies inside the grid.
    fn cell_at(&self, pos: &Position) -> (cell: C)
        requires
            self.wf(),
            self.dim.contains(*pos),
        ensures
            cell == self.model().cells[*pos],
    {
        proof {
            lemma_storage_index_bound(self.dim, *pos);
            assert(self.cells@.len() == self.cells.len());
            assert(0 <= pos.row * self.dim.nb_cols) by (nonlinear_arith);
        }
        self.cells[pos.row * self.dim.nb_cols + pos.col]
    }

    /// Reads the cell at `pos`. A position outside the grid is answered by
    /// the boundary policy.
    pub fn get(&self, pos: &Position) -> (cell: C)
        requires
            self.wf(),
        ensures
            cell == self.model().resolve(pos.row as int, pos.col as int),
    {
        self.lookup(pos.row as i128, pos.col as i128)
    }

    /// Reads the cell one step `rel` away from `pos`, through the boundary
    /// policy where the step leaves the grid.
    pub fn get_relative(&self, pos: &Position, rel: &RelCoords) -> (cell: C)
        requires
            self.wf(),
        ensures
            cell == self.model().neighbor(*pos, *rel),
    {
        self.lookup(pos.row as i128 + rel.drow as i128, pos.col as i128 + rel.dcol as i128)
    }

    /// A reader centred at `pos`.
    pub fn view(&self, pos: Position) -> (reader: GridView<'_, C>)
        requires
            self.wf(),
        ensures
            reader.wf(),
            reader.grid() == self.model(),
            reader.position() == pos,
    {
        GridView { grid: self, pos }
    }
}

impl<C: AutomatonCell> Clone for Grid<C> {
    fn clone(&self) -> (copy: Self)
        ensures
            copy.model() == self.model(),
            self.wf() ==> copy.wf(),
    {
        let mut cells: Vec<C> = Vec::new();
        let mut copied: usize = 0;
        while copied < self.cells.len()
            invariant
                copied <= self.cells.len(),
                cells@ == self.cells@.subrange(0, copied as int),
            decreases self.cells.len() - copied,
        {
            cells.push(self.cells[copied]);
            copied += 1;
        }
        assert(cells@ == self.cells@);
        let copy = Grid { dim: self.dim, boundary: self.boundary, cells };
        copy
    }
}

/// A read-only handle on a grid, centred on one position: what an update
/// rule sees of the grid.
pub struct GridView<'a, C> {
    grid: &'a Grid<C>,
    pos: Position,
}

impl<'a, C: AutomatonCell> GridView<'a, C> {
    /// The grid that the reader looks at is complete.
    pub closed spec fn wf(&self) -> bool {
        self.grid.wf()
    }

    /// The grid that the reader looks at.
    pub closed spec fn grid(&self) -> GridModel<C> {
        self.grid.model()
    }

    /// The position that the reader is centred on.
    pub closed spec fn position(&self) -> Position {
        self.pos
    }

    /// The cell at the centre.
    pub open spec fn spec_state(&self) -> C {
        self.grid().resolve(self.position().row as int, self.position().col as int)
    }

    /// The cells around the centre, one for each step of `rels`.
    pub open spec fn spec_get_multiple(&self, rels: Seq<RelCoords>) -> Seq<C> {
        self.grid().neighbors(self.position(), rels)
    }

    /// The position that the reader is centred on.
    pub fn pos(&self) -> (pos: Position)
        ensures
            pos == self.position(),
    {
        self.pos
    }

    /// The state of the cell at the centre.
    pub fn state(&self) -> (cell: C)
        requires
            self.wf(),
        ensures
            cell == self.spec_state(),
    {
        self.grid.get(&self.pos)
    }

    /// The cell one step `rel` away from the centre.
    pub fn get(&self, rel: &RelCoords) -> (cell: C)
        requires
            self.wf(),
        ensures
            cell == self.grid().neighbor(self.position(), *rel),
    {
        self.grid.get_relative(&self.pos, rel)
    }

    /// The cells found along each step of `rels`, in the order of `rels`.
    pub fn get_multiple(&self, rels: &[RelCoords]) -> (cells: Vec<C>)
        requires
            self.wf(),
        ensures
            cells@ == self.spec_get_multiple(rels@),
    {
        let mut cells: Vec<C> = Vec::new();
        let mut read: usize = 0;
        while read < rels.len()
            invariant
                self.wf(),
                read <= rels.len(),
                cells@.len() == read,
                forall|i: int| 0 <= i < read ==> cells@[i] == self.grid().neighbor(self.position(), rels@[i]),
            decreases rels.len() - read,
        {
            cells.push(self.get(&rels[read]));
            read += 1;
        }
        cells
    }
}

} // verus!
