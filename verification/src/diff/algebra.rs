//! The algebra of diffs: what a diff is as a mathematical value, what it
//! means to compute, apply and stack diffs, and the laws that tie the
//! three together.

use crate::error::EngineError;
use crate::grid::{same_shape, GridModel, Position};
use vstd::prelude::*;

verus! {

/// What happens to one cell: the state it leaves and the state it takes.
pub struct Transition<C> {
    pub before: C,
    pub after: C,
}

/// A diff as a mathematical value: the transition of each position that
/// it touches.
pub type DiffModel<C> = Map<Position, Transition<C>>;

/// The diff that changes nothing.
pub open spec fn identity_diff<C>() -> DiffModel<C> {
    Map::empty()
}

/// Every transition of the diff changes its cell.
pub open spec fn is_sparse<C>(diff: DiffModel<C>) -> bool {
    forall|pos: Position| #[trigger] diff.dom().contains(pos) ==> diff[pos].before != diff[pos].after
}

/// The diff from `before` to `after`: one transition for each position
/// of `before` at which the two grids hold different cells.
pub open spec fn compute_spec<C>(before: GridModel<C>, after: GridModel<C>) -> DiffModel<C> {
    Map::new(
        |pos: Position| before.dim.contains(pos) && before.cells[pos] != after.cells[pos],
        |pos: Position| Transition { before: before.cells[pos], after: after.cells[pos] },
    )
}

/// The diff can be applied to the grid: each position that it touches
/// lies inside the grid and holds the state that its transition leaves.
pub open spec fn fits<C>(grid: GridModel<C>, diff: DiffModel<C>) -> bool {
    forall|pos: Position| #[trigger]
        diff.dom().contains(pos) ==> grid.dim.contains(pos) && grid.cells[pos] == diff[pos].before
}

/// The grid with the state that each transition of the diff takes
/// written at its position, and every other cell as it was.
pub open spec fn patched<C>(grid: GridModel<C>, diff: DiffModel<C>) -> GridModel<C> {
    GridModel {
        cells: Map::new(
            |pos: Position| grid.dim.contains(pos),
            |pos: Position|
                if diff.dom().contains(pos) {
                    diff[pos].after
                } else {
                    grid.cells[pos]
                },
        ),
        ..grid
    }
}

/// Applying a diff: the patched grid where the diff fits, a mismatch
/// where it does not.
pub open spec fn apply_spec<C>(grid: GridModel<C>, diff: DiffModel<C>) -> Result<
    GridModel<C>,
    EngineError,
> {
    if fits(grid, diff) {
        Ok(patched(grid, diff))
    } else {
        Err(EngineError::DiffMismatch)
    }
}

/// What `first` and then `second` make of the cell at `pos`: the state
/// that the earlier of them leaves and the state that the later takes.
pub open spec fn net_transition<C>(first: DiffModel<C>, second: DiffModel<C>, pos: Position) -> Transition<C> {
    Transition {
        before: if first.dom().contains(pos) {
            first[pos].before
        } else {
            second[pos].before
        },
        after: if second.dom().contains(pos) {
            second[pos].after
        } else {
            first[pos].after
        },
    }
}

/// `first` followed by `second` as one diff: the net transition of each
/// position that either touches, without those that end where they began.
pub open spec fn stack_spec<C>(first: DiffModel<C>, second: DiffModel<C>) -> DiffModel<C> {
    Map::new(
        |pos: Position|
            (first.dom().contains(pos) || second.dom().contains(pos)) && net_transition(
                first,
                second,
                pos,
            ).before != net_transition(first, second, pos).after,
        |pos: Position| net_transition(first, second, pos),
    )
}

/// `first` followed by `second` with nothing dropped: the net transition
/// of each position that either touches, also where it ends where it
/// began.
pub open spec fn merged<C>(first: DiffModel<C>, second: DiffModel<C>) -> DiffModel<C> {
    Map::new(
        |pos: Position| first.dom().contains(pos) || second.dom().contains(pos),
        |pos: Position| net_transition(first, second, pos),
    )
}

/// The transitions of a diff that change their cell.
pub open spec fn sparse_part<C>(diff: DiffModel<C>) -> DiffModel<C> {
    Map::new(
        |pos: Position| diff.dom().contains(pos) && diff[pos].before != diff[pos].after,
        |pos: Position| diff[pos],
    )
}

/// The diffs of a sequence merged from left to right, with nothing
/// dropped: each position that any of them touches, with the state that
/// the earliest of those leaves and the state that the latest takes.
pub open spec fn merged_all<C>(diffs: Seq<DiffModel<C>>) -> DiffModel<C>
    decreases diffs.len(),
{
    if diffs.len() == 0 {
        identity_diff()
    } else {
        merged(merged_all(diffs.drop_last()), diffs.last())
    }
}

/// The diffs of a sequence stacked into one: for each position that any
/// of them touches, the state that the earliest of those leaves and the
/// state that the latest takes, without the positions that end where
/// they began. The empty sequence gives the identity.
pub open spec fn stack_all_spec<C>(diffs: Seq<DiffModel<C>>) -> DiffModel<C> {
    sparse_part(merged_all(diffs))
}

/// `second` starts where `first` ends: at each position that both touch,
/// the state that `first` takes is the state that `second` leaves.
pub open spec fn follows<C>(first: DiffModel<C>, second: DiffModel<C>) -> bool {
    forall|pos: Position|
        first.dom().contains(pos) && second.dom().contains(pos) ==> (#[trigger] first[pos]).after
            == second[pos].before
}

/// Where two neighbours among `first`, `second`, `third` undo each other
/// at a position that all three touch, the remaining one continues from
/// them: the one condition under which the order of stacking is free.
pub open spec fn regroupable<C>(first: DiffModel<C>, second: DiffModel<C>, third: DiffModel<C>) -> bool {
    forall|pos: Position|
        first.dom().contains(pos) && second.dom().contains(pos) && #[trigger] third.dom().contains(pos) ==> {
            &&& first[pos].before == second[pos].after ==> second[pos].after == third[pos].before
            &&& second[pos].before == third[pos].after ==> first[pos].after == second[pos].before
        }
}

/// The diff from a grid to another is sparse, and it fits the grid that
/// it starts from.
pub proof fn lemma_compute_fits<C>(before: GridModel<C>, after: GridModel<C>)
    ensures
        is_sparse(compute_spec(before, after)),
        fits(before, compute_spec(before, after)),
{
}

/// The diff from a grid to itself is the identity.
pub proof fn lemma_compute_same<C>(grid: GridModel<C>)
    ensures
        compute_spec(grid, grid) == identity_diff::<C>(),
{
}

/// Applying the identity to a grid gives the grid.
pub proof fn lemma_apply_identity<C>(grid: GridModel<C>)
    requires
        grid.wf(),
    ensures
        apply_spec(grid, identity_diff()) == Ok::<GridModel<C>, EngineError>(grid),
{
    patched(grid, identity_diff()).lemma_equal(grid);
}

/// Applying to a grid the diff from it to another grid of the same shape
/// gives that other grid.
pub proof fn lemma_apply_compute<C>(before: GridModel<C>, after: GridModel<C>)
    requires
        before.wf(),
        after.wf(),
        same_shape(before, after),
    ensures
        apply_spec(before, compute_spec(before, after)) == Ok::<GridModel<C>, EngineError>(after),
{
    patched(before, compute_spec(before, after)).lemma_equal(after);
}

/// Stacking the identity before or after a sparse diff gives the diff.
pub proof fn lemma_stack_identity<C>(diff: DiffModel<C>)
    requires
        is_sparse(diff),
    ensures
        stack_spec(identity_diff(), diff) == diff,
        stack_spec(diff, identity_diff()) == diff,
{
}

/// A stack is sparse.
pub proof fn lemma_stack_sparse<C>(first: DiffModel<C>, second: DiffModel<C>)
    ensures
        is_sparse(stack_spec(first, second)),
{
}

/// A stack of any number of diffs is sparse.
pub proof fn lemma_stack_all_sparse<C>(diffs: Seq<DiffModel<C>>)
    ensures
        is_sparse(stack_all_spec(diffs)),
{
}

/// A stack of two diffs is what their merge leaves after the positions
/// that end where they began are dropped.
pub proof fn lemma_stack_is_merged<C>(first: DiffModel<C>, second: DiffModel<C>)
    ensures
        stack_spec(first, second) == sparse_part(merged(first, second)),
{
}

/// Stacking no diff gives the identity, stacking one sparse diff gives
/// that diff, and stacking two diffs is `stack_spec`.
pub proof fn lemma_stack_all_small<C>(first: DiffModel<C>, second: DiffModel<C>)
    ensures
        stack_all_spec(Seq::<DiffModel<C>>::empty()) == identity_diff::<C>(),
        is_sparse(first) ==> stack_all_spec(seq![first]) == first,
        stack_all_spec(seq![first, second]) == stack_spec(first, second),
{
    assert(stack_all_spec(Seq::<DiffModel<C>>::empty()) =~= identity_diff::<C>());
    assert(seq![first].drop_last() =~= Seq::<DiffModel<C>>::empty());
    assert(merged_all(seq![first]) == first);
    assert(seq![first, second].drop_last() =~= seq![first]);
    lemma_stack_is_merged(first, second);
}

/// What a merge of any number of diffs holds at a position: the position
/// is touched by the merge exactly when one of the diffs touches it, and
/// its transition then runs from the state that the first such diff
/// leaves to the state that the last such diff takes.
pub proof fn lemma_merged_all<C>(diffs: Seq<DiffModel<C>>, pos: Position)
    ensures
        merged_all(diffs).dom().contains(pos) <==> exists|i: int|
            0 <= i < diffs.len() && (#[trigger] diffs[i]).dom().contains(pos),
        merged_all(diffs).dom().contains(pos) ==> exists|i: int, j: int|
            {
                &&& 0 <= i <= j < diffs.len()
                &&& (#[trigger] diffs[i]).dom().contains(pos)
                &&& (#[trigger] diffs[j]).dom().contains(pos)
                &&& forall|k: int| 0 <= k < i ==> !(#[trigger] diffs[k]).dom().contains(pos)
                &&& forall|k: int| j < k < diffs.len() ==> !(#[trigger] diffs[k]).dom().contains(pos)
                &&& merged_all(diffs)[pos] == Transition {
                    before: diffs[i][pos].before,
                    after: diffs[j][pos].after,
                }
            },
    decreases diffs.len(),
{
    if diffs.len() > 0 {
        let earlier = diffs.drop_last();
        let last = diffs.len() - 1;
        lemma_merged_all(earlier, pos);
        assert forall|k: int| 0 <= k < last implies earlier[k] == diffs[k] by {}
        if merged_all(earlier).dom().contains(pos) {
            let (i, j) = choose|i: int, j: int|
                {
                    &&& 0 <= i <= j < earlier.len()
                    &&& (#[trigger] earlier[i]).dom().contains(pos)
                    &&& (#[trigger] earlier[j]).dom().contains(pos)
                    &&& forall|k: int| 0 <= k < i ==> !(#[trigger] earlier[k]).dom().contains(pos)
                    &&& forall|k: int| j < k < earlier.len() ==> !(#[trigger] earlier[k]).dom().contains(pos)
                    &&& merged_all(earlier)[pos] == Transition {
                        before: earlier[i][pos].before,
                        after: earlier[j][pos].after,
                    }
                };
            if diffs[last].dom().contains(pos) {
                lemma_merged_all_witness(diffs, pos, i, last);
            } else {
                lemma_merged_all_witness(diffs, pos, i, j);
            }
        } else {
            if diffs[last].dom().contains(pos) {
                lemma_merged_all_witness(diffs, pos, last, last);
            }
        }
    }
}

/// Two places in a sequence of diffs that are the first and the last to
/// touch a position bear out what `lemma_merged_all` claims of it.
proof fn lemma_merged_all_witness<C>(diffs: Seq<DiffModel<C>>, pos: Position, i: int, j: int)
    requires
        0 <= i <= j < diffs.len(),
        diffs[i].dom().contains(pos),
        diffs[j].dom().contains(pos),
        forall|k: int| 0 <= k < i ==> !(#[trigger] diffs[k]).dom().contains(pos),
        forall|k: int| j < k < diffs.len() ==> !(#[trigger] diffs[k]).dom().contains(pos),
        merged_all(diffs)[pos] == (Transition { before: diffs[i][pos].before, after: diffs[j][pos].after }),
    ensures
        exists|i: int| 0 <= i < diffs.len() && (#[trigger] diffs[i]).dom().contains(pos),
        exists|i: int, j: int|
            {
                &&& 0 <= i <= j < diffs.len()
                &&& (#[trigger] diffs[i]).dom().contains(pos)
                &&& (#[trigger] diffs[j]).dom().contains(pos)
                &&& forall|k: int| 0 <= k < i ==> !(#[trigger] diffs[k]).dom().contains(pos)
                &&& forall|k: int| j < k < diffs.len() ==> !(#[trigger] diffs[k]).dom().contains(pos)
                &&& merged_all(diffs)[pos] == Transition {
                    before: diffs[i][pos].before,
                    after: diffs[j][pos].after,
                }
            },
{
}

/// Stacking is associative wherever the three diffs can be regrouped.
pub proof fn lemma_stack_associative<C>(first: DiffModel<C>, second: DiffModel<C>, third: DiffModel<C>)
    requires
        is_sparse(first),
        is_sparse(second),
        is_sparse(third),
        regroupable(first, second, third),
    ensures
        stack_spec(stack_spec(first, second), third) == stack_spec(first, stack_spec(second, third)),
{
}

/// Where three sparse diffs cannot be regrouped, the two orders of
/// stacking them give different diffs.
pub proof fn lemma_stack_associative_only_if<C>(
    first: DiffModel<C>,
    second: DiffModel<C>,
    third: DiffModel<C>,
)
    requires
        is_sparse(first),
        is_sparse(second),
        is_sparse(third),
        stack_spec(stack_spec(first, second), third) == stack_spec(first, stack_spec(second, third)),
    ensures
        regroupable(first, second, third),
{
    let right = stack_spec(first, stack_spec(second, third));
    assert forall|pos: Position|
        first.dom().contains(pos) && second.dom().contains(pos) && #[trigger] third.dom().contains(
            pos,
        ) implies {
        &&& first[pos].before == second[pos].after ==> second[pos].after == third[pos].before
        &&& second[pos].before == third[pos].after ==> first[pos].after == second[pos].before
    } by {
        let late = stack_spec(second, third);
        assert(right.dom().contains(pos) ==> right[pos] == net_transition(first, late, pos));
    }
}

/// Three diffs that follow one another can be regrouped.
pub proof fn lemma_follows_regroupable<C>(first: DiffModel<C>, second: DiffModel<C>, third: DiffModel<C>)
    requires
        follows(first, second),
        follows(second, third),
    ensures
        regroupable(first, second, third),
{
}

/// The diffs between three grids of one size stack: from the first to the
/// second, then from the second to the third, is from the first to the
/// third.
pub proof fn lemma_stack_compute<C>(a: GridModel<C>, b: GridModel<C>, c: GridModel<C>)
    requires
        a.dim == b.dim,
        b.dim == c.dim,
    ensures
        stack_spec(compute_spec(a, b), compute_spec(b, c)) == compute_spec(a, c),
{
}

/// A chain of generations: at least one grid, all complete and of one
/// shape.
pub open spec fn is_chain<C>(generations: Seq<GridModel<C>>) -> bool {
    &&& generations.len() > 0
    &&& forall|i: int|
        0 <= i < generations.len() ==> (#[trigger] generations[i]).wf() && same_shape(
            generations[i],
            generations[0],
        )
}

/// The diffs along a chain: from each generation to the one after it.
pub open spec fn chain_diffs<C>(generations: Seq<GridModel<C>>) -> Seq<DiffModel<C>> {
    Seq::new((generations.len() - 1) as nat, |i: int| compute_spec(generations[i], generations[i + 1]))
}

/// Along a chain, the merge of the diffs from one generation to a later
/// one touches positions inside the grids only; where it touches a
/// position, its transition runs from the cell of the first generation
/// to that of the last, and where it does not, the two cells are the same.
pub proof fn lemma_merged_chain<C>(generations: Seq<GridModel<C>>, from: int, to: int)
    requires
        is_chain(generations),
        0 <= from <= to < generations.len(),
    ensures
        forall|pos: Position| #[trigger]
            merged_all(chain_diffs(generations).subrange(from, to)).dom().contains(pos) ==> {
                &&& generations[from].dim.contains(pos)
                &&& merged_all(chain_diffs(generations).subrange(from, to))[pos] == Transition {
                    before: generations[from].cells[pos],
                    after: generations[to].cells[pos],
                }
            },
        forall|pos: Position|
            generations[from].dim.contains(pos) && !(#[trigger] merged_all(
                chain_diffs(generations).subrange(from, to),
            ).dom().contains(pos)) ==> generations[from].cells[pos] == generations[to].cells[pos],
    decreases to - from,
{
    let diffs = chain_diffs(generations).subrange(from, to);
    let all = merged_all(diffs);
    if from < to {
        lemma_merged_chain(generations, from, to - 1);
        let earlier = merged_all(chain_diffs(generations).subrange(from, to - 1));
        let step = compute_spec(generations[to - 1], generations[to]);
        assert(diffs.drop_last() =~= chain_diffs(generations).subrange(from, to - 1));
        assert(all == merged(earlier, step));
    }
}

/// Along a chain, the diffs from one generation to a later one stack to
/// the diff between the two.
pub proof fn lemma_stack_chain<C>(generations: Seq<GridModel<C>>, from: int, to: int)
    requires
        is_chain(generations),
        0 <= from <= to < generations.len(),
    ensures
        stack_all_spec(chain_diffs(generations).subrange(from, to)) == compute_spec(
            generations[from],
            generations[to],
        ),
{
    lemma_merged_chain(generations, from, to);
}

/// Along a chain, applying to a generation the stacked diffs that lead
/// from it to a later generation gives that later generation.
pub proof fn lemma_apply_chain<C>(generations: Seq<GridModel<C>>, from: int, to: int)
    requires
        is_chain(generations),
        0 <= from <= to < generations.len(),
    ensures
        apply_spec(generations[from], stack_all_spec(chain_diffs(generations).subrange(from, to)))
            == Ok::<GridModel<C>, EngineError>(generations[to]),
{
    lemma_stack_chain(generations, from, to);
    lemma_apply_compute(generations[from], generations[to]);
}

/// Along a chain, the stacked diffs over a range of generations are the
/// stack of those over its two parts, wherever the range is cut.
pub proof fn lemma_stack_split<C>(generations: Seq<GridModel<C>>, from: int, via: int, to: int)
    requires
        is_chain(generations),
        0 <= from <= via <= to < generations.len(),
    ensures
        stack_all_spec(chain_diffs(generations).subrange(from, to)) == stack_spec(
            stack_all_spec(chain_diffs(generations).subrange(from, via)),
            stack_all_spec(chain_diffs(generations).subrange(via, to)),
        ),
{
    lemma_stack_chain(generations, from, via);
    lemma_stack_chain(generations, via, to);
    lemma_stack_chain(generations, from, to);
    lemma_stack_compute(generations[from], generations[via], generations[to]);
}

} // verus!
