//! What a cell type owes the engine: a default, an equality, a packed
//! form, a neighborhood, and a local rule.

use crate::grid::{GridView, RelCoords};
use std::fmt::Debug;
use vstd::prelude::*;
use vstd::std_specs::cmp::PartialEqSpec;

verus! {

/// The value that lives at one position of a grid.
///
/// A cell is a small value that is copied freely. Its `==` is equality of
/// values, its `default()` is the empty cell, and it can be packed into a
/// small form and unpacked again without loss.
pub trait AutomatonCell: Copy + Debug + Default + Eq + PartialEq + Send + Sync + 'static {
    /// The packed form of a cell.
    type Encoded: Copy + Send + Sync;

    /// The empty cell.
    spec fn spec_default() -> Self;

    /// The packed form of this cell.
    spec fn spec_encode(&self) -> Self::Encoded;

    /// The packed values that stand for a cell.
    spec fn is_code(encoded: Self::Encoded) -> bool;

    /// The cell that a packed value stands for.
    spec fn spec_decode(encoded: Self::Encoded) -> Self;

    /// The steps to the places that the update rule reads, in the order in
    /// which the rule receives their cells.
    spec fn spec_neighborhood() -> Seq<RelCoords>;

    /// Packs the cell.
    fn encode(&self) -> (encoded: Self::Encoded)
        ensures
            encoded == self.spec_encode(),
    ;

    /// Unpacks a cell from a value that stands for one.
    fn decode(encoded: &Self::Encoded) -> (cell: Self)
        requires
            Self::is_code(*encoded),
        ensures
            cell == Self::spec_decode(*encoded),
    ;

    /// The neighborhood of the cell type.
    fn neighborhood() -> (rels: &'static [RelCoords])
        ensures
            rels@ == Self::spec_neighborhood(),
    ;

    /// Packing a cell gives a value that stands for a cell, and unpacking
    /// that value gives the cell back.
    proof fn lemma_decode_encode(cell: Self)
        ensures
            Self::is_code(cell.spec_encode()),
            Self::spec_decode(cell.spec_encode()) == cell,
    ;

    /// `==` on cells is equality of values.
    proof fn lemma_eq()
        ensures
            Self::obeys_eq_spec(),
            forall|a: Self, b: Self| #[trigger] a.eq_spec(&b) <==> a == b,
    ;

    /// `default()` gives the empty cell and nothing else.
    proof fn lemma_default()
        ensures
            forall|cell: Self| call_ensures(Self::default, (), cell) ==> cell == Self::spec_default(),
    ;
}

/// A cell type whose rule runs on the processor, one cell at a time.
pub trait CPUCell: AutomatonCell {
    /// The local rule: the next state of a cell, from its state and the
    /// states found along its neighborhood.
    spec fn spec_update(state: Self, neighbors: Seq<Self>) -> Self;

    /// The next state of the cell at the centre of `view`. The result
    /// depends on nothing but that cell and its neighborhood.
    fn update(view: &GridView<'_, Self>) -> (next: Self)
        requires
            view.wf(),
        ensures
            next == Self::spec_update(view.spec_state(), view.spec_get_multiple(Self::spec_neighborhood())),
    ;
}

/// A cell type whose packed form a graphics processor can work on.
pub trait GPUCell: AutomatonCell {

}

/// The colors in which a glyph can be drawn.
#[derive(Clone, Copy, Debug, PartialEq, Eq, Structural, Hash)]
pub enum GlyphColor {
    /// The color that the terminal starts with.
    Reset,
    Black,
    DarkGrey,
    Red,
    DarkRed,
    Green,
    DarkGreen,
    Yellow,
    DarkYellow,
    Blue,
    DarkBlue,
    Magenta,
    DarkMagenta,
    Cyan,
    DarkCyan,
    White,
    Grey,
}

/// How a cell is shown on a terminal: a character, its color, and
/// whether it is drawn bold.
#[derive(Clone, Copy, Debug, PartialEq, Eq, Structural, Hash)]
pub struct StyledGlyph {
    pub symbol: char,
    pub color: GlyphColor,
    pub bold: bool,
}

/// A cell type that can be shown on a terminal. The engine never asks
/// for a glyph; a renderer does.
pub trait TermDrawableAutomaton: AutomatonCell {
    /// The glyph of this cell.
    spec fn spec_style(&self) -> StyledGlyph;

    /// The glyph of this cell.
    fn style(&self) -> (glyph: StyledGlyph)
        ensures
            glyph == self.spec_style(),
    ;
}

} // verus!
