use vstd::prelude::*;
pub use crate::mutation::MutationType;
use crate::scalar::Scalar;

verus! {

/// The way the environment knows when to stop training.
#[derive(PartialEq, Eq, Structural, Debug, Clone, Copy)]
pub enum TrainingMode {
    /// A target fitness value, as the evaluator measures it.
    FitnessTarget(Scalar),
    /// A number of generations to train for.
    NumGenerations(usize),
}

/// The settings of an environment.
pub struct Settings {
    /// The size of the population.
    pub population_size: usize,
    /// The mutation operators to draw from; one listed twice is drawn twice
    /// as often.
    pub mutation_types: Vec<MutationType>,
    /// The way the environment knows when to stop training.
    pub training_mode: TrainingMode,
    /// The range the number of mutations per organism is drawn from.
    pub mutation_rate: core::ops::RangeInclusive<usize>,
    /// The number of organisms kept from one generation for the next.
    pub next_gen_threshold: usize,
}

/// Relies on `RangeInclusive::start`, which returns the range's lower bound.
pub assume_specification<Idx>[ core::ops::RangeInclusive::<Idx>::start ](r: &core::ops::RangeInclusive<Idx>) -> (s: &Idx)
    ensures
        *s == r@.start,
;

/// Relies on `RangeInclusive::end`, which returns the range's upper bound.
pub assume_specification<Idx>[ core::ops::RangeInclusive::<Idx>::end ](r: &core::ops::RangeInclusive<Idx>) -> (e: &Idx)
    ensures
        *e == r@.end,
;

/// `n` copies of operator `m`.
pub open spec fn copies(m: MutationType, n: nat) -> Seq<MutationType> {
    Seq::new(n, |i: int| m)
}

/// The default operator weights: 3 parts adding a node to an existing layer,
/// 1 adding a node to a new layer, 2 adding an edge, 6 modifying an edge,
/// 6 modifying a node, 1 removing an edge and 1 removing a node.
pub open spec fn default_mutation_types() -> Seq<MutationType> {
    copies(MutationType::AddNodeToExistingLayer, 3) + copies(MutationType::AddNodeToNewLayer, 1)
        + copies(MutationType::AddEdge, 2) + copies(MutationType::ModifyEdge, 6)
        + copies(MutationType::ModifyNode, 6) + copies(MutationType::RemoveEdge, 1)
        + copies(MutationType::RemoveNode, 1)
}

/// Appends `n` copies of `m`.
fn push_copies(v: &mut Vec<MutationType>, m: MutationType, n: usize)
    ensures
        final(v)@ == old(v)@ + copies(m, n as nat),
{
    let ghost base = v@;
    let mut i: usize = 0;
    while i < n
        invariant
            i <= n,
            v@ == base + copies(m, i as nat),
        decreases n - i,
    {
        v.push(m);
        assert(v@ =~= base + copies(m, (i + 1) as nat));
        i = i + 1;
    }
}

impl Default for Settings {
    fn default() -> (r: Settings)
        ensures
            r.population_size == 100,
            r.mutation_types@ == default_mutation_types(),
            r.training_mode == TrainingMode::NumGenerations(30),
            r.mutation_rate@.start == 0,
            r.mutation_rate@.end == 5,
            r.mutation_rate@.exhausted == false,
            r.next_gen_threshold == 5,
    {
        let mut mutation_types: Vec<MutationType> = Vec::new();
        push_copies(&mut mutation_types, MutationType::AddNodeToExistingLayer, 3);
        push_copies(&mut mutation_types, MutationType::AddNodeToNewLayer, 1);
        push_copies(&mut mutation_types, MutationType::AddEdge, 2);
        push_copies(&mut mutation_types, MutationType::ModifyEdge, 6);
        push_copies(&mut mutation_types, MutationType::ModifyNode, 6);
        push_copies(&mut mutation_types, MutationType::RemoveEdge, 1);
        push_copies(&mut mutation_types, MutationType::RemoveNode, 1);
        assert(mutation_types@ =~= default_mutation_types());
        Settings {
            population_size: 100,
            mutation_types,
            training_mode: TrainingMode::NumGenerations(30),
            mutation_rate: core::ops::RangeInclusive::new(0, 5),
            next_gen_threshold: 5,
        }
    }
}

} // verus!
