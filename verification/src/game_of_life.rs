//! Conway's Game of Life: two states, the eight surrounding cells, and the
//! rule of birth on three and survival on two or three.

use crate::automaton::{AutomatonCell, CPUCell, GPUCell, GlyphColor, StyledGlyph, TermDrawableAutomaton};
use crate::grid::{Boundary, Dimensions, Grid, GridModel, GridView, Position, RelCoords};
use std::collections::HashMap;
use vstd::prelude::*;
use vstd::std_specs::cmp::PartialEqSpecImpl;
use vstd::std_specs::hash::group_hash_axioms;

verus! {

/// The state of a cell of the Game of Life.
#[derive(Copy, Clone, Debug, Eq, Hash)]
pub enum States {
    Dead,
    Alive,
}

impl PartialEq for States {
    fn eq(&self, other: &Self) -> (same: bool) {
        match (self, other) {
            (States::Dead, States::Dead) => true,
            (States::Alive, States::Alive) => true,
            _ => false,
        }
    }
}

impl PartialEqSpecImpl for States {
    open spec fn obeys_eq_spec() -> bool {
        true
    }

    open spec fn eq_spec(&self, other: &Self) -> bool {
        *self == *other
    }
}

impl Default for States {
    fn default() -> (state: Self)
        ensures
            state == States::Dead,
    {
        States::Dead
    }
}

/// The number of live cells in `cells`.
pub open spec fn count_alive(cells: Seq<States>) -> nat
    decreases cells.len(),
{
    if cells.len() == 0 {
        0
    } else {
        count_alive(cells.drop_last()) + if cells.last() == States::Alive {
            1nat
        } else {
            0nat
        }
    }
}

/// The rule of the Game of Life: a dead cell with three live neighbors
/// comes alive, a live cell with two or three stays alive, every other
/// cell is dead in the next generation.
pub open spec fn conway_rule(state: States, alive_neighbors: nat) -> States {
    match state {
        States::Dead => if alive_neighbors == 3 {
            States::Alive
        } else {
            States::Dead
        },
        States::Alive => if alive_neighbors == 2 || alive_neighbors == 3 {
            States::Alive
        } else {
            States::Dead
        },
    }
}

/// The eight steps to the cells that touch a cell, clockwise from the upper left.
pub open spec fn moore_neighborhood() -> Seq<RelCoords> {
    seq![
        RelCoords { drow: -1i64, dcol: -1i64 },
        RelCoords { drow: -1i64, dcol: 0i64 },
        RelCoords { drow: -1i64, dcol: 1i64 },
        RelCoords { drow: 0i64, dcol: 1i64 },
        RelCoords { drow: 1i64, dcol: 1i64 },
        RelCoords { drow: 1i64, dcol: 0i64 },
        RelCoords { drow: 1i64, dcol: -1i64 },
        RelCoords { drow: 0i64, dcol: -1i64 },
    ]
}

impl AutomatonCell for States {
    type Encoded = u32;

    open spec fn spec_default() -> Self {
        States::Dead
    }

    open spec fn spec_encode(&self) -> u32 {
        match self {
            States::Dead => 0,
            States::Alive => 1,
        }
    }

    open spec fn is_code(encoded: u32) -> bool {
        encoded == 0 || encoded == 1
    }

    open spec fn spec_decode(encoded: u32) -> Self {
        if encoded == 0 {
            States::Dead
        } else {
            States::Alive
        }
    }

    open spec fn spec_neighborhood() -> Seq<RelCoords> {
        moore_neighborhood()
    }

    fn encode(&self) -> (encoded: u32) {
        match self {
            States::Dead => 0,
            States::Alive => 1,
        }
    }

    fn decode(encoded: &u32) -> (cell: Self) {
        if *encoded == 0 {
            States::Dead
        } else {
            States::Alive
        }
    }

    fn neighborhood() -> (rels: &'static [RelCoords]) {
        let rels: &'static [RelCoords] = &[
            RelCoords { drow: -1, dcol: -1 },
            RelCoords { drow: -1, dcol: 0 },
            RelCoords { drow: -1, dcol: 1 },
            RelCoords { drow: 0, dcol: 1 },
            RelCoords { drow: 1, dcol: 1 },
            RelCoords { drow: 1, dcol: 0 },
            RelCoords { drow: 1, dcol: -1 },
            RelCoords { drow: 0, dcol: -1 },
        ];
        rels
    }

    proof fn lemma_decode_encode(cell: Self) {
    }

    proof fn lemma_eq() {
    }

    proof fn lemma_default() {
    }
}

impl CPUCell for States {
    open spec fn spec_update(state: Self, neighbors: Seq<Self>) -> Self {
        conway_rule(state, count_alive(neighbors))
    }

    fn update(view: &GridView<'_, Self>) -> (next: Self) {
        // Count the live cells around the centre.
        let rels = Self::neighborhood();
        let neighbors = view.get_multiple(rels);
        let mut nb_alive_neighbors: usize = 0;
        let mut seen: usize = 0;
        while seen < neighbors.len()
            invariant
                seen <= neighbors.len(),
                nb_alive_neighbors == count_alive(neighbors@.subrange(0, seen as int)),
                nb_alive_neighbors <= seen,
            decreases neighbors.len() - seen,
        {
            assert(neighbors@.subrange(0, seen + 1).drop_last() =~= neighbors@.subrange(0, seen as int));
            if neighbors[seen] == States::Alive {
                nb_alive_neighbors += 1;
            }
            seen += 1;
        }
        assert(neighbors@.subrange(0, seen as int) =~= neighbors@);

        // Apply the rule.
        match view.state() {
            States::Dead => {
                if nb_alive_neighbors == 3 {
                    States::Alive
                } else {
                    States::Dead
                }
            },
            States::Alive => {
                if nb_alive_neighbors == 2 || nb_alive_neighbors == 3 {
                    States::Alive
                } else {
                    States::Dead
                }
            },
        }
    }
}

impl GPUCell for States {

}

impl TermDrawableAutomaton for States {
    /// A dead cell is a grey dot, a live cell a bold green hash.
    open spec fn spec_style(&self) -> StyledGlyph {
        match self {
            States::Dead => StyledGlyph { symbol: '\u{b7}', color: GlyphColor::Grey, bold: false },
            States::Alive => StyledGlyph { symbol: '#', color: GlyphColor::Green, bold: true },
        }
    }

    fn style(&self) -> (glyph: StyledGlyph) {
        match self {
            States::Dead => StyledGlyph { symbol: '\u{b7}', color: GlyphColor::Grey, bold: false },
            States::Alive => StyledGlyph { symbol: '#', color: GlyphColor::Green, bold: true },
        }
    }
}

/// The automaton of the Game of Life: its name, and the glyph of each
/// state, kept under the packed form of the state.
pub struct GameOfLife {
    name: &'static str,
    style_map: HashMap<u32, StyledGlyph>,
}

/// The size of a grid as a graphics processor is told it.
#[derive(Clone, Copy, Debug, PartialEq, Eq, Structural)]
pub struct PushConstants {
    pub nb_rows: u32,
    pub nb_cols: u32,
}

impl GameOfLife {
    /// The name of the automaton.
    pub closed spec fn spec_name(&self) -> &'static str {
        self.name
    }

    /// The style map holds the glyph of each state.
    pub closed spec fn wf(&self) -> bool {
        forall|state: States|
            self.style_map@.contains_key(#[trigger] state.spec_encode()) && self.style_map@[state.spec_encode()]
                == state.spec_style()
    }

    /// The automaton, with its name and the glyphs of its two states.
    pub fn new() -> (automaton: GameOfLife)
        ensures
            automaton.wf(),
            automaton.spec_name() == "Conway's Game of Life",
    {
        broadcast use group_hash_axioms;

        let mut style_map: HashMap<u32, StyledGlyph> = HashMap::new();
        style_map.insert(States::Dead.encode(), States::Dead.style());
        style_map.insert(States::Alive.encode(), States::Alive.style());
        GameOfLife { name: "Conway's Game of Life", style_map }
    }

    /// The glyph of `state`.
    pub fn style(&self, state: &States) -> (glyph: &StyledGlyph)
        requires
            self.wf(),
        ensures
            *glyph == state.spec_style(),
    {
        broadcast use group_hash_axioms;

        let found = self.style_map.get(&state.encode());
        found.unwrap()
    }

    /// The name of the automaton.
    pub fn name(&self) -> (name: &str)
        ensures
            name == self.spec_name(),
    {
        self.name
    }

    /// The size of `grid` in the form in which a shader takes it: each
    /// side cut down to its low 32 bits.
    pub fn push_constants(&self, grid: &Grid<States>) -> (constants: PushConstants)
        ensures
            constants.nb_rows == grid.model().dim.nb_rows as u32,
            constants.nb_cols == grid.model().dim.nb_cols as u32,
    {
        let dim = grid.dim();
        PushConstants {
            nb_rows: #[verifier::truncate] (dim.nb_rows as u32),
            nb_cols: #[verifier::truncate] (dim.nb_cols as u32),
        }
    }
}

/// The live cells of the starting pattern of `conway_canon`.
pub open spec fn canon_alive(pos: Position) -> bool {
    ||| pos.row == 1 && (pos.col == 5 || pos.col == 6)
    ||| pos.row == 2 && (pos.col == 5 || pos.col == 6)
    ||| pos.row == 11 && (pos.col == 5 || pos.col == 6 || pos.col == 7)
    ||| pos.row == 12 && (pos.col == 4 || pos.col == 8)
    ||| pos.row == 13 && (pos.col == 3 || pos.col == 9)
    ||| pos.row == 14 && (pos.col == 3 || pos.col == 9)
    ||| pos.row == 15 && (pos.col == 6)
    ||| pos.row == 16 && (pos.col == 4 || pos.col == 8)
    ||| pos.row == 17 && (pos.col == 5 || pos.col == 6 || pos.col == 7)
    ||| pos.row == 18 && (pos.col == 6)
    ||| pos.row == 21 && (pos.col == 3 || pos.col == 4 || pos.col == 5)
    ||| pos.row == 22 && (pos.col == 3 || pos.col == 4 || pos.col == 5)
    ||| pos.row == 23 && (pos.col == 2 || pos.col == 6)
    ||| pos.row == 25 && (pos.col == 1 || pos.col == 2 || pos.col == 6 || pos.col == 7)
    ||| pos.row == 35 && (pos.col == 3 || pos.col == 4)
    ||| pos.row == 36 && (pos.col == 3 || pos.col == 4)
}

/// The starting pattern of `conway_canon` as a mathematical value: a grid
/// of 100 rows and 200 columns, dead beyond its edges, with the cells of
/// the pattern alive and every other cell dead.
pub open spec fn conway_canon_spec() -> GridModel<States> {
    let dim = Dimensions { nb_rows: 100, nb_cols: 200 };
    GridModel {
        dim,
        boundary: Boundary::Fixed(States::Dead),
        cells: Map::new(
            |pos: Position| dim.contains(pos),
            |pos: Position|
                if canon_alive(pos) {
                    States::Alive
                } else {
                    States::Dead
                },
        ),
    }
}

/// A grid of 100 rows and 200 columns that holds a glider gun near its
/// upper left corner.
pub fn conway_canon() -> (grid: Grid<States>)
    ensures
        grid.wf(),
        grid.model() == conway_canon_spec(),
{
    let mut grid = Grid::new(Dimensions::new(100, 200), Boundary::Fixed(States::Dead));
    grid.set(&Position::new(1, 5), States::Alive);
    grid.set(&Position::new(1, 6), States::Alive);
    grid.set(&Position::new(2, 5), States::Alive);
    grid.set(&Position::new(2, 6), States::Alive);
    grid.set(&Position::new(11, 5), States::Alive);
    grid.set(&Position::new(11, 6), States::Alive);
    grid.set(&Position::new(11, 7), States::Alive);
    grid.set(&Position::new(12, 4), States::Alive);
    grid.set(&Position::new(12, 8), States::Alive);
    grid.set(&Position::new(13, 3), States::Alive);
    grid.set(&Position::new(13, 9), States::Alive);
    grid.set(&Position::new(14, 3), States::Alive);
    grid.set(&Position::new(14, 9), States::Alive);
    grid.set(&Position::new(15, 6), States::Alive);
    grid.set(&Position::new(16, 4), States::Alive);
    grid.set(&Position::new(16, 8), States::Alive);
    grid.set(&Position::new(17, 5), States::Alive);
    grid.set(&Position::new(17, 6), States::Alive);
    grid.set(&Position::new(17, 7), States::Alive);
    grid.set(&Position::new(18, 6), States::Alive);
    grid.set(&Position::new(21, 3), States::Alive);
    grid.set(&Position::new(21, 4), States::Alive);
    grid.set(&Position::new(21, 5), States::Alive);
    grid.set(&Position::new(22, 3), States::Alive);
    grid.set(&Position::new(22, 4), States::Alive);
    grid.set(&Position::new(22, 5), States::Alive);
    grid.set(&Position::new(23, 2), States::Alive);
    grid.set(&Position::new(23, 6), States::Alive);
    grid.set(&Position::new(25, 1), States::Alive);
    grid.set(&Position::new(25, 2), States::Alive);
    grid.set(&Position::new(25, 6), States::Alive);
    grid.set(&Position::new(25, 7), States::Alive);
    grid.set(&Position::new(35, 3), States::Alive);
    grid.set(&Position::new(35, 4), States::Alive);
    grid.set(&Position::new(36, 3), States::Alive);
    grid.set(&Position::new(36, 4), States::Alive);
    proof {
        grid.model().lemma_equal(conway_canon_spec());
    }
    grid
}

} // verus!
