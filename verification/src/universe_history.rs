//! The history of a universe: every generation that was pushed, kept as
//! the diffs between them and a full grid every few generations, from
//! which any generation can be rebuilt.

use crate::automaton::{AutomatonCell, CPUCell};
use crate::diff::algebra::{
    apply_spec, chain_diffs, compute_spec, is_chain, lemma_apply_chain, lemma_stack_chain, lemma_stack_split,
    stack_all_spec, stack_spec, DiffModel,
};
use crate::diff::{models_of, Diff};
use crate::error::EngineError;
use crate::grid::{same_shape, Grid, GridModel};
use crate::universe::{lemma_replay, nth_generation, step_spec};
use vstd::prelude::*;

verus! {

/// A history as a mathematical value: the generations that it has taken
/// in, the initial grid first, and how often it keeps a full grid.
pub struct HistoryModel<C> {
    pub generations: Seq<GridModel<C>>,
    pub f_check: nat,
}

/// The timeline of a universe.
///
/// The history keeps the latest generation, the diff from each generation
/// to the next, and a checkpoint (a full grid) for the initial generation
/// and, where `f_check` is not zero, for every generation whose number is
/// a multiple of `f_check`.
pub struct UniverseHistory<C> {
    diffs: Vec<Diff<C>>,
    checkpoints: Vec<Grid<C>>,
    f_check: usize,
    last: Grid<C>,
    generations: Ghost<Seq<GridModel<C>>>,
}

impl<C> View for UniverseHistory<C> {
    type V = HistoryModel<C>;

    closed spec fn view(&self) -> HistoryModel<C> {
        HistoryModel { generations: self.generations@, f_check: self.f_check as nat }
    }
}

impl<C> HistoryModel<C> {
    /// The number of the latest generation: the initial grid is
    /// generation zero, and each push adds one.
    pub open spec fn latest(self) -> int {
        self.generations.len() - 1
    }

    /// The history after `grid` has been pushed.
    pub open spec fn push(self, grid: GridModel<C>) -> HistoryModel<C> {
        HistoryModel { generations: self.generations.push(grid), ..self }
    }

    /// The diffs that the history keeps: from each generation to the next.
    pub open spec fn diffs(self) -> Seq<DiffModel<C>> {
        chain_diffs(self.generations)
    }

    /// The generation with number `gen`, or `None` while it has not been
    /// pushed.
    pub open spec fn get_gen(self, gen: int) -> Option<GridModel<C>> {
        if 0 <= gen <= self.latest() {
            Some(self.generations[gen])
        } else {
            None
        }
    }

    /// The number of the generation from whose checkpoint generation
    /// `gen` is rebuilt: the last multiple of `f_check` that is not
    /// after `gen`, or the initial generation where `f_check` is zero.
    pub open spec fn checkpoint_before(self, gen: int) -> int {
        if self.f_check == 0 {
            0
        } else {
            gen - gen % (self.f_check as int)
        }
    }

    /// What rebuilding generation `gen` gives: the checkpoint at or
    /// before it, with the stacked diffs that lead from there to `gen`
    /// applied.
    pub open spec fn rebuild(self, gen: int) -> Result<GridModel<C>, EngineError> {
        apply_spec(
            self.generations[self.checkpoint_before(gen)],
            stack_all_spec(self.diffs().subrange(self.checkpoint_before(gen), gen)),
        )
    }

    /// The answer to a query for the diff from generation `ref_gen` to
    /// generation `target_gen`: a range that runs backwards is refused; a
    /// target that has not been pushed yet gives `None`; otherwise the
    /// diffs between the two generations, stacked.
    pub open spec fn get_diff(self, ref_gen: int, target_gen: int) -> Result<Option<DiffModel<C>>, EngineError> {
        if target_gen < ref_gen {
            Err(EngineError::InvalidRange)
        } else if target_gen > self.latest() {
            Ok(None)
        } else {
            Ok(Some(stack_all_spec(self.diffs().subrange(ref_gen, target_gen))))
        }
    }
}

/// Rebuilding a generation of a chain from its checkpoint gives that
/// generation. The checkpoint is one that the history keeps, and where
/// `f_check` is not zero, fewer than `f_check` diffs lie between it and
/// the generation.
pub proof fn lemma_rebuild<C>(history: HistoryModel<C>, gen: int)
    requires
        is_chain(history.generations),
        0 <= gen <= history.latest(),
    ensures
        history.rebuild(gen) == Ok::<GridModel<C>, EngineError>(history.generations[gen]),
        0 <= history.checkpoint_before(gen) <= gen,
        checkpoint_gens(history).contains(history.checkpoint_before(gen)),
        history.f_check > 0 ==> gen - history.checkpoint_before(gen) < history.f_check,
{
    let base = history.checkpoint_before(gen);
    let f = history.f_check as int;
    if f > 0 {
        vstd::arithmetic::div_mod::lemma_fundamental_div_mod(gen, f);
        vstd::arithmetic::div_mod::lemma_mod_bound(gen, f);
        vstd::arithmetic::div_mod::lemma_div_is_ordered(gen, history.latest(), f);
        vstd::arithmetic::div_mod::lemma_div_pos_is_pos(gen, f);
        let k = gen / f;
        assert(k * f == base) by (nonlinear_arith)
            requires
                gen == f * k + gen % f,
                base == gen - gen % f,
        ;
        assert(checkpoint_gens(history)[k] == base);
    } else {
        assert(checkpoint_gens(history)[0] == base);
    }
    lemma_apply_chain(history.generations, base, gen);
}

/// Where every generation of a history follows from the one before it
/// by a step, the history answers a query for a generation with the grid
/// that as many steps reach from the initial grid, whatever `f_check` is.
pub proof fn lemma_get_gen_replays<C: CPUCell>(history: HistoryModel<C>, gen: int)
    requires
        0 <= gen <= history.latest(),
        forall|i: int|
            0 <= i < history.latest() ==> #[trigger] history.generations[i + 1] == step_spec(
                history.generations[i],
            ),
    ensures
        history.get_gen(gen) == Some(nth_generation(history.generations[0], gen as nat)),
{
    lemma_replay(history.generations, gen);
}

/// In a chain, the diff from a generation to a later one that has been
/// pushed is the net change between the two.
pub proof fn lemma_get_diff_net<C>(history: HistoryModel<C>, ref_gen: int, target_gen: int)
    requires
        is_chain(history.generations),
        0 <= ref_gen <= target_gen <= history.latest(),
    ensures
        history.get_diff(ref_gen, target_gen) == Ok::<Option<DiffModel<C>>, EngineError>(
            Some(compute_spec(history.generations[ref_gen], history.generations[target_gen])),
        ),
{
    lemma_stack_chain(history.generations, ref_gen, target_gen);
}

/// In a chain, the diff over a range of generations is the stack of the
/// diffs over its two parts, wherever the range is cut.
pub proof fn lemma_get_diff_split<C>(history: HistoryModel<C>, from: int, via: int, to: int)
    requires
        is_chain(history.generations),
        0 <= from <= via <= to <= history.latest(),
    ensures
        history.get_diff(from, to) == Ok::<Option<DiffModel<C>>, EngineError>(
            Some(
                stack_spec(
                    history.get_diff(from, via).unwrap().unwrap(),
                    history.get_diff(via, to).unwrap().unwrap(),
                ),
            ),
        ),
{
    lemma_stack_split(history.generations, from, via, to);
}

/// The numbers of the generations of which a history keeps a checkpoint:
/// the initial generation, and every multiple of `f_check` up to the
/// latest generation where `f_check` is not zero.
pub open spec fn checkpoint_gens<C>(history: HistoryModel<C>) -> Seq<int> {
    if history.f_check == 0 {
        seq![0int]
    } else {
        Seq::new(
            (history.latest() / (history.f_check as int) + 1) as nat,
            |k: int| k * history.f_check,
        )
    }
}

impl<C: AutomatonCell> UniverseHistory<C> {
    /// The checkpoints that the history keeps, oldest first.
    pub closed spec fn checkpoints(&self) -> Seq<GridModel<C>> {
        Seq::new(self.checkpoints@.len(), |k: int| self.checkpoints@[k].model())
    }

    /// What is stored agrees with the generations taken in: one diff for
    /// each step, the latest grid, and the checkpoints at their places.
    pub closed spec fn inv(&self) -> bool {
        let generations = self.generations@;
        &&& self.diffs@.len() + 1 == generations.len()
        &&& forall|i: int|
            0 <= i < self.diffs@.len() ==> (#[trigger] self.diffs@[i]).wf() && self.diffs@[i]@ == compute_spec(
                generations[i],
                generations[i + 1],
            )
        &&& self.last.wf()
        &&& self.last.model() == generations.last()
        &&& self.f_check == 0 ==> self.checkpoints@.len() == 1
        &&& self.f_check > 0 ==> self.checkpoints@.len() == self.diffs@.len() / (self.f_check as nat) + 1
        &&& forall|k: int|
            0 <= k < self.checkpoints@.len() ==> (#[trigger] self.checkpoints@[k]).wf() && 0 <= k
                * self.f_check < generations.len() && self.checkpoints@[k].model() == generations[k
                * self.f_check]
    }

    /// The history is sound: its generations form a chain, and what it
    /// stores agrees with them.
    pub open spec fn wf(&self) -> bool {
        is_chain(self@.generations) && self.inv()
    }

    /// A history that begins with `start_universe` and keeps a checkpoint
    /// every `f_check` generations, or none but the first where `f_check`
    /// is zero.
    pub fn new(start_universe: Grid<C>, f_check: usize) -> (history: UniverseHistory<C>)
        requires
            start_universe.wf(),
        ensures
            history.wf(),
            history@ == (HistoryModel { generations: seq![start_universe.model()], f_check: f_check as nat }),
    {
        let mut checkpoints: Vec<Grid<C>> = Vec::new();
        checkpoints.push(start_universe.clone());
        let ghost first = start_universe.model();
        let generations: Ghost<Seq<GridModel<C>>> = Ghost(Seq::empty().push(first));
        let history = UniverseHistory { diffs: Vec::new(), checkpoints, f_check, last: start_universe, generations };
        proof {
            assert(0 * f_check == 0) by (nonlinear_arith);
            if f_check > 0 {
                assert(0int / (f_check as int) == 0) by (nonlinear_arith)
                    requires
                        f_check > 0,
                ;
            }
        }
        history
    }

    /// A sound history keeps one checkpoint for each of the generations
    /// that `checkpoint_gens` names, and each checkpoint is the generation
    /// that it stands for.
    pub proof fn lemma_checkpoints(&self)
        requires
            self.wf(),
        ensures
            self.checkpoints().len() == checkpoint_gens(self@).len(),
            forall|k: int|
                #![trigger self.checkpoints()[k]]
                #![trigger checkpoint_gens(self@)[k]]
                0 <= k < self.checkpoints().len() ==> {
                    &&& 0 <= checkpoint_gens(self@)[k] < self@.generations.len()
                    &&& self.checkpoints()[k] == self@.generations[checkpoint_gens(self@)[k]]
                },
    {
        assert forall|k: int|
            #![trigger self.checkpoints()[k]]
            #![trigger checkpoint_gens(self@)[k]]
            0 <= k < self.checkpoints().len() implies {
            &&& 0 <= checkpoint_gens(self@)[k] < self@.generations.len()
            &&& self.checkpoints()[k] == self@.generations[checkpoint_gens(self@)[k]]
        } by {
            assert(self.checkpoints@[k].wf());
        }
    }

    /// The number of checkpoints that the history keeps.
    pub fn nb_checkpoints(&self) -> (count: usize)
        requires
            self.wf(),
        ensures
            count == checkpoint_gens(self@).len(),
    {
        proof {
            self.lemma_checkpoints();
        }
        self.checkpoints.len()
    }

    /// The number of the latest generation.
    pub fn len(&self) -> (count: usize)
        requires
            self.wf(),
        ensures
            count == self@.latest(),
    {
        self.diffs.len()
    }

    /// How often the history keeps a checkpoint.
    pub fn f_check(&self) -> (f_check: usize)
        ensures
            f_check == self@.f_check,
    {
        self.f_check
    }

    /// Tells whether `universe` has the shape of the generations of this
    /// history, so that it can be pushed.
    pub fn accepts(&self, universe: &Grid<C>) -> (fitting: bool)
        requires
            self.wf(),
        ensures
            fitting == same_shape(universe.model(), self@.generations[0]),
    {
        universe.same_shape_as(&self.last)
    }

    /// Takes in the next generation, a grid of the shape of those before it.
    pub fn push(&mut self, universe: Grid<C>)
        requires
            old(self).wf(),
            universe.wf(),
            same_shape(universe.model(), old(self)@.generations[0]),
        ensures
            final(self).wf(),
            final(self)@ == old(self)@.push(universe.model()),
    {
        let ghost before = self.generations@;
        let ghost after = before.push(universe.model());
        let diff = self.last.diff(&universe);
        self.diffs.push(diff);
        if self.f_check != 0 && self.diffs.len() % self.f_check == 0 {
            self.checkpoints.push(universe.clone());
        }
        self.last = universe;
        self.generations = Ghost(after);
        proof {
            let count = old(self).diffs@.len() as int;
            let f = self.f_check as int;
            if f > 0 {
                lemma_next_quotient(count, f);
                vstd::arithmetic::div_mod::lemma_fundamental_div_mod(count + 1, f);
            }
            assert forall|k: int| 0 <= k < self.checkpoints@.len() implies (#[trigger] self.checkpoints@[k]).wf()
                && 0 <= k * self.f_check < after.len() && self.checkpoints@[k].model() == after[k
                * self.f_check] by {
                if k >= old(self).checkpoints@.len() {
                    assert(k * f == count + 1) by (nonlinear_arith)
                        requires
                            count + 1 == f * ((count + 1) / f) + (count + 1) % f,
                            (count + 1) % f == 0,
                            k == (count + 1) / f,
                    ;
                }
            }
        }
    }

    /// The generation with number `gen`, rebuilt from the checkpoint at
    /// or before it and the diffs that lead from there to it. A
    /// generation that has not been pushed yet gives `None`.
    pub fn get_gen(&self, gen: usize) -> (found: Option<Grid<C>>)
        requires
            self.wf(),
        ensures
            match found {
                Some(grid) => grid.wf() && self@.get_gen(gen as int) == Some(grid.model()),
                None => self@.get_gen(gen as int) is None,
            },
    {
        if self.diffs.len() < gen {
            // We don't have that generation
            None
        } else if self.diffs.len() == gen {
            Some(self.last.clone())
        } else {
            let ghost generations = self.generations@;
            let idx: usize = if self.f_check != 0 {
                gen / self.f_check
            } else {
                0
            };
            let shift: usize = if self.f_check != 0 {
                gen % self.f_check
            } else {
                gen
            };
            proof {
                let f = self.f_check as int;
                if f > 0 {
                    vstd::arithmetic::div_mod::lemma_fundamental_div_mod(gen as int, f);
                    vstd::arithmetic::div_mod::lemma_div_is_ordered(gen as int, self.diffs@.len() as int, f);
                    assert(idx * f == f * idx) by (nonlinear_arith);
                } else {
                    assert(idx * f == 0) by (nonlinear_arith)
                        requires
                            idx == 0,
                    ;
                }
                self.lemma_stored_diffs();
                lemma_apply_chain(generations, gen - shift, gen as int);
                assert(models_of(self.diffs@.subrange(gen - shift, gen as int)) =~= chain_diffs(
                    generations,
                ).subrange(gen - shift, gen as int));
            }
            // Accumulate differences between reference grid and target generation
            let stacked_diffs = Diff::stack_mul(&self.diffs[(gen - shift)..gen]);
            match self.checkpoints[idx].clone().apply_diff(&stacked_diffs) {
                Ok(grid) => Some(grid),
                Err(_) => None,
            }
        }
    }

    /// The diff that leads from generation `ref_gen` to generation
    /// `target_gen`: the diffs between them, stacked. A range that runs
    /// backwards is refused; a target that has not been pushed yet gives
    /// `None`.
    pub fn get_diff(&self, ref_gen: usize, target_gen: usize) -> (found: Result<Option<Diff<C>>, EngineError>)
        requires
            self.wf(),
        ensures
            match found {
                Ok(Some(diff)) => diff.wf() && self@.get_diff(ref_gen as int, target_gen as int) == Ok::<
                    Option<DiffModel<C>>,
                    EngineError,
                >(Some(diff@)),
                Ok(None) => self@.get_diff(ref_gen as int, target_gen as int) == Ok::<
                    Option<DiffModel<C>>,
                    EngineError,
                >(None),
                Err(error) => self@.get_diff(ref_gen as int, target_gen as int) == Err::<
                    Option<DiffModel<C>>,
                    EngineError,
                >(error),
            },
    {
        if target_gen < ref_gen {
            Err(EngineError::InvalidRange)
        } else if self.diffs.len() < target_gen {
            Ok(None)
        } else {
            proof {
                self.lemma_stored_diffs();
                lemma_stack_chain(self.generations@, ref_gen as int, target_gen as int);
                assert(models_of(self.diffs@.subrange(ref_gen as int, target_gen as int)) =~= chain_diffs(
                    self.generations@,
                ).subrange(ref_gen as int, target_gen as int));
            }
            Ok(Some(Diff::stack_mul(&self.diffs[ref_gen..target_gen])))
        }
    }

    /// The stored diffs are the diffs along the chain of generations.
    proof fn lemma_stored_diffs(&self)
        requires
            self.wf(),
        ensures
            models_of(self.diffs@) == chain_diffs(self.generations@),
            forall|i: int| 0 <= i < self.diffs@.len() ==> (#[trigger] self.diffs@[i]).wf(),
    {
    }
}

/// One more generation moves the count of checkpoints up by one exactly
/// when the new number of generations is a multiple of the frequency.
proof fn lemma_next_quotient(count: int, frequency: int)
    requires
        count >= 0,
        frequency > 0,
    ensures
        (count + 1) % frequency == 0 ==> (count + 1) / frequency == count / frequency + 1,
        (count + 1) % frequency != 0 ==> (count + 1) / frequency == count / frequency,
{
    vstd::arithmetic::div_mod::lemma_fundamental_div_mod(count, frequency);
    vstd::arithmetic::div_mod::lemma_fundamental_div_mod(count + 1, frequency);
    vstd::arithmetic::div_mod::lemma_mod_bound(count, frequency);
    vstd::arithmetic::div_mod::lemma_mod_bound(count + 1, frequency);
    let q0 = count / frequency;
    let r0 = count % frequency;
    let q1 = (count + 1) / frequency;
    let r1 = (count + 1) % frequency;
    assert(frequency * (q1 - q0) == 1 + r0 - r1) by (nonlinear_arith)
        requires
            count == frequency * q0 + r0,
            count + 1 == frequency * q1 + r1,
    ;
    if q1 - q0 >= 2 {
        assert(frequency * (q1 - q0) >= 2 * frequency) by (nonlinear_arith)
            requires
                q1 - q0 >= 2,
                frequency > 0,
        ;
    }
    if q1 - q0 <= -1 {
        assert(frequency * (q1 - q0) <= -frequency) by (nonlinear_arith)
            requires
                q1 - q0 <= -1,
                frequency > 0,
        ;
    }
    if q1 - q0 == 1 {
        assert(frequency * (q1 - q0) == frequency) by (nonlinear_arith)
            requires
                q1 - q0 == 1,
        ;
    }
    if q1 - q0 == 0 {
        assert(frequency * (q1 - q0) == 0) by (nonlinear_arith)
            requires
                q1 - q0 == 0,
        ;
    }
}

} // verus!
