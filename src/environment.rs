use vstd::prelude::*;
use crate::activationfn::ActivationFn;
use crate::layer::LayerID;
use crate::node::Node;
use crate::mutation::{Fresh, MutationType, Picks, applied, keeps_io_nodes, resolve};
use crate::network::{Network, NetworkError, NetworkView, initial_view, layer_ids};
use crate::random::random_below;
use crate::settings::{Settings, TrainingMode};

verus! {

/// Why building or advancing an environment failed.
#[derive(PartialEq, Eq, Structural, Debug, Clone, Copy)]
pub enum EnvironmentError {
    /// The input size was not set.
    InputSizeNotSet,
    /// The output size was not set.
    OutputSizeNotSet,
    /// The activation function was not set.
    ActivationFnNotSet,
    /// The population size was not set.
    PopulationNotSet,
    /// The mutation rate was not set.
    MutationRateNotSet,
    /// A ranking is not an ordering of the whole population.
    Ranking,
    /// The generation counter has reached its largest value.
    GenerationOverflow,
    /// A network operation failed.
    Network(NetworkError),
}

/// Of a population of `n`, one in this many is kept as a seed.
pub const RETAIN_DIVISOR: usize = 20;

/// The number of copies made of each seed.
pub const CLONES: usize = 20;

/// The number of seeds kept from a population of `n`: the top five percent,
/// and at least one.
pub open spec fn seeds_kept(n: nat) -> nat {
    if n / (RETAIN_DIVISOR as nat) == 0 { 1 } else { n / (RETAIN_DIVISOR as nat) }
}

/// The seed that position `i` of the next generation copies.
pub open spec fn seed_of(i: int, n: nat) -> int {
    (i / (CLONES as int)) % (seeds_kept(n) as int)
}

/// `order` lists each of `0..n` once.
pub open spec fn is_permutation(order: Seq<usize>, n: nat) -> bool {
    &&& order.len() == n
    &&& forall|i: int| 0 <= i < order.len() ==> #[trigger] order[i] < n
    &&& forall|i: int, j: int| 0 <= i < order.len() && 0 <= j < order.len() && i != j ==> #[trigger] order[i] != #[trigger] order[j]
}

/// The mathematical model of an environment.
pub struct EnvironmentView {
    /// The population, best first after a ranking.
    pub organisms: Seq<NetworkView>,
    /// The number of completed generations.
    pub generation: nat,
    /// The configured population size.
    pub population: nat,
    /// The least number of mutations per organism and generation.
    pub mutation_rate: nat,
    /// The greatest number of mutations per organism and generation.
    pub mutation_rate_max: nat,
    /// The operators to draw from, with repeats as weights; all evenly when empty.
    pub mutation_types: Seq<MutationType>,
    /// The organism ranked first at the last ranking, if there was one.
    pub champion: Option<NetworkView>,
}

impl EnvironmentView {
    /// The population has its configured size, and every organism (and the
    /// kept champion) is well formed.
    pub open spec fn wf(self) -> bool {
        &&& self.organisms.len() == self.population
        &&& forall|i: int| 0 <= i < self.organisms.len() ==> (#[trigger] self.organisms[i]).wf()
        &&& self.champion matches Some(c) ==> c.wf()
    }
}

/// `n` is the generation that selection makes from `o`, whose organisms are
/// sorted by fitness, best first: as many organisms as before, position `i`
/// a copy of seed `(i / CLONES) % seeds_kept`.
pub open spec fn selected(o: EnvironmentView, n: EnvironmentView) -> bool {
    &&& n.organisms.len() == o.population
    &&& forall|i: int| 0 <= i < n.organisms.len() ==> #[trigger] n.organisms[i] == o.organisms[seed_of(i, o.population)]
    &&& n.generation == o.generation
    &&& n.population == o.population
    &&& n.mutation_rate == o.mutation_rate
    &&& n.mutation_rate_max == o.mutation_rate_max
    &&& n.mutation_types == o.mutation_types
    &&& n.champion == o.champion
}

/// Contains an environment for the evolutionary algorithm.
pub struct Environment {
    organisms: Vec<Network>,
    generation: usize,
    population: usize,
    mutation_rate: usize,
    mutation_rate_max: usize,
    mutation_types: Vec<MutationType>,
    champion: Option<Network>,
}

impl View for Environment {
    type V = EnvironmentView;

    closed spec fn view(&self) -> EnvironmentView {
        EnvironmentView {
            organisms: self.organisms@.map_values(|n: Network| n@),
            generation: self.generation as nat,
            population: self.population as nat,
            mutation_rate: self.mutation_rate as nat,
            mutation_rate_max: self.mutation_rate_max as nat,
            mutation_types: self.mutation_types@,
            champion: match self.champion {
                Some(c) => Some(c@),
                None => None,
            },
        }
    }
}

/// `n` is `o` after one mutation whose operator was drawn from `types` (from
/// all operators when it is empty).
pub open spec fn mutated_once(o: NetworkView, n: NetworkView, types: Seq<MutationType>) -> bool {
    exists|m: MutationType, p: Picks, f: Fresh|
        (types.len() > 0 ==> types.contains(m)) && #[trigger] applied(o, n, resolve(o, m, p), p, f)
}

/// `trace` runs from its first network to its last by one mutation per step,
/// each drawn from `types`.
pub open spec fn mutation_trace(trace: Seq<NetworkView>, types: Seq<MutationType>) -> bool {
    forall|i: int| 0 <= i < trace.len() - 1 ==> mutated_once(#[trigger] trace[i], trace[i + 1], types)
}

/// `n` is `o` after `count` mutations in turn, each drawn from `types`.
pub open spec fn mutated(o: NetworkView, n: NetworkView, types: Seq<MutationType>, count: nat) -> bool {
    exists|trace: Seq<NetworkView>| {
        &&& #[trigger] trace.len() == count + 1
        &&& trace[0] == o
        &&& trace[count as int] == n
        &&& mutation_trace(trace, types)
    }
}

/// No mutation leaves a network as it is.
proof fn lemma_mutated_zero(o: NetworkView, types: Seq<MutationType>)
    ensures
        mutated(o, o, types, 0),
{
    let trace = seq![o];
    assert(trace.len() == 0 + 1);
}

/// One more mutation after `count` makes `count + 1`.
proof fn lemma_mutated_step(o: NetworkView, mid: NetworkView, n: NetworkView, types: Seq<MutationType>, count: nat)
    requires
        mutated(o, mid, types, count),
        mutated_once(mid, n, types),
    ensures
        mutated(o, n, types, count + 1),
{
    let trace = choose|trace: Seq<NetworkView>| {
        &&& #[trigger] trace.len() == count + 1
        &&& trace[0] == o
        &&& trace[count as int] == mid
        &&& mutation_trace(trace, types)
    };
    let longer = trace.push(n);
    assert forall|i: int| 0 <= i < longer.len() - 1 implies mutated_once(#[trigger] longer[i], longer[i + 1], types) by {
        if i < count {
            assert(longer[i] == trace[i] && longer[i + 1] == trace[i + 1]);
        } else {
            assert(longer[i] == mid);
        }
    }
    assert(longer.len() == (count + 1) + 1);
}

/// `n` is `o` after one round of mutation in environment `env`: as many
/// mutations as `env` applies to an organism, each drawn from its operators.
pub open spec fn mutation_round(env: EnvironmentView, o: NetworkView, n: NetworkView) -> bool {
    exists|count: nat| {
        &&& (env.mutation_rate <= env.mutation_rate_max ==> env.mutation_rate <= count <= env.mutation_rate_max)
        &&& (env.mutation_rate > env.mutation_rate_max ==> count == env.mutation_rate)
        &&& #[trigger] mutated(o, n, env.mutation_types, count)
    }
}

/// The most mutations `env` applies to one organism in a round.
pub open spec fn round_bound(env: EnvironmentView) -> nat {
    if env.mutation_rate <= env.mutation_rate_max { env.mutation_rate_max } else { env.mutation_rate }
}

/// No round of mutation in `env` can fail on `net`: it has an input or an
/// output node, which no mutation removes, and both id counters have a fresh
/// id for every mutation of the round.
pub open spec fn room_for_round(env: EnvironmentView, net: NetworkView) -> bool {
    &&& layer_ids(net.nodes, LayerID::InputLayer).len() + layer_ids(net.nodes, LayerID::OutputLayer).len() > 0
    &&& net.next_node_id + round_bound(env) <= usize::MAX
    &&& net.next_edge_id + round_bound(env) <= usize::MAX
}

/// No organism of `env` can make a round of mutation fail.
pub open spec fn can_mutate(env: EnvironmentView) -> bool {
    forall|i: int| 0 <= i < env.organisms.len() ==> room_for_round(env, #[trigger] env.organisms[i])
}

/// A network that lists a node in some layer has a node.
proof fn lemma_layer_ids_nonempty(nodes: Seq<Node>, l: LayerID)
    requires
        layer_ids(nodes, l).len() > 0,
    ensures
        nodes.len() > 0,
{
}

/// A number of mutations drawn from `min..=max`, or `min` when that range is
/// empty.
fn mutation_count(min: usize, max: usize) -> (r: usize)
    ensures
        min <= max ==> min <= r <= max,
        min > max ==> r == min,
{
    if max <= min {
        min
    } else if max - min == usize::MAX {
        random_below(usize::MAX)
    } else {
        min + random_below(max - min + 1)
    }
}

/// `x` is one of the seeds that selection keeps from `o`.
pub open spec fn is_kept_seed(o: EnvironmentView, x: NetworkView) -> bool {
    exists|j: int| 0 <= j < seeds_kept(o.population) && x == #[trigger] o.organisms[j]
}

/// Every seed position lies among the kept seeds.
pub proof fn lemma_seed_of_kept(i: int, n: nat)
    requires
        0 <= i,
    ensures
        0 <= seed_of(i, n) < seeds_kept(n),
{
}

/// Selection keeps the population size, and every organism of the next
/// generation is a copy of one of the top five percent (at least one) of the
/// previous, fitness-sorted, generation.
pub proof fn lemma_selection_from_top(o: EnvironmentView, n: EnvironmentView)
    requires
        o.wf(),
        selected(o, n),
    ensures
        n.organisms.len() == o.population,
        forall|i: int| 0 <= i < n.organisms.len() ==> is_kept_seed(o, #[trigger] n.organisms[i]),
{
    assert forall|i: int| 0 <= i < n.organisms.len() implies is_kept_seed(o, #[trigger] n.organisms[i]) by {
        lemma_seed_of_kept(i, o.population);
        let j = seed_of(i, o.population);
        assert(0 <= j < seeds_kept(o.population) && n.organisms[i] == o.organisms[j]);
    }
}

/// Selection only copies organisms of a ranked population, so when no
/// organism before it could make a round of mutation fail, none after it can.
proof fn lemma_room_after_selection(
    old: EnvironmentView,
    ranked: EnvironmentView,
    seeded: EnvironmentView,
    order: Seq<usize>,
)
    requires
        old.wf(),
        can_mutate(old),
        is_permutation(order, old.organisms.len()),
        forall|j: int| 0 <= j < order.len() ==> #[trigger] ranked.organisms[j] == old.organisms[order[j] as int],
        ranked.population == old.population,
        selected(ranked, seeded),
        seeded.mutation_rate == old.mutation_rate,
        seeded.mutation_rate_max == old.mutation_rate_max,
    ensures
        can_mutate(seeded),
{
    assert forall|i: int| 0 <= i < seeded.organisms.len() implies room_for_round(seeded, #[trigger] seeded.organisms[i]) by {
        let n = old.population;
        lemma_seed_of_kept(i, n);
        let j = seed_of(i, n);
        assert(seeds_kept(n) <= n);
        assert(seeded.organisms[i] == ranked.organisms[j]);
        assert(order[j] < n);
        assert(room_for_round(old, old.organisms[order[j] as int]));
    }
}

/// A generation's organisms, position by position: ranked by `order`, then
/// seeded by selection, then each mutated in one round.
proof fn lemma_generation(
    old: EnvironmentView,
    ranked: EnvironmentView,
    seeded: EnvironmentView,
    new: EnvironmentView,
    order: Seq<usize>,
)
    requires
        old.wf(),
        ranked.organisms.len() == old.organisms.len(),
        forall|j: int| 0 <= j < order.len() ==> #[trigger] ranked.organisms[j] == old.organisms[order[j] as int],
        order.len() == old.organisms.len(),
        ranked.population == old.population,
        selected(ranked, seeded),
        new.organisms.len() == seeded.organisms.len(),
        forall|i: int| 0 <= i < new.organisms.len() ==> #[trigger] mutation_round(seeded, seeded.organisms[i], new.organisms[i]),
        seeded.mutation_rate == old.mutation_rate,
        seeded.mutation_rate_max == old.mutation_rate_max,
        seeded.mutation_types == old.mutation_types,
    ensures
        forall|i: int| 0 <= i < new.organisms.len() ==> #[trigger] mutation_round(
            old,
            old.organisms[order[seed_of(i, old.population)] as int],
            new.organisms[i],
        ),
{
    assert forall|i: int| 0 <= i < new.organisms.len() implies #[trigger] mutation_round(
        old,
        old.organisms[order[seed_of(i, old.population)] as int],
        new.organisms[i],
    ) by {
        lemma_seed_of_kept(i, old.population);
        let j = seed_of(i, old.population);
        assert(mutation_round(seeded, seeded.organisms[i], new.organisms[i]));
        assert(seeded.organisms[i] == ranked.organisms[j]);
        assert(ranked.organisms[j] == old.organisms[order[j] as int]);
    }
}

impl Environment {
    /// The environment's invariant.
    pub open spec fn wf(&self) -> bool {
        self@.wf()
    }

    /// An environment at generation zero whose population is `organisms`.
    pub fn with_organisms(organisms: Vec<Network>, mutation_rate: usize) -> (r: Environment)
        requires
            forall|i: int| 0 <= i < organisms@.len() ==> (#[trigger] organisms@[i]).wf(),
        ensures
            r.wf(),
            r@.organisms == organisms@.map_values(|n: Network| n@),
            r@.generation == 0,
            r@.population == organisms@.len(),
            r@.mutation_rate == mutation_rate,
            r@.mutation_rate_max == mutation_rate,
            r@.mutation_types == Seq::<MutationType>::empty(),
            r@.champion is None,
    {
        let population = organisms.len();
        Environment {
            organisms,
            generation: 0,
            population,
            mutation_rate,
            mutation_rate_max: mutation_rate,
            mutation_types: Vec::new(),
            champion: None,
        }
    }

    /// The number of organisms.
    pub fn organism_count(&self) -> (r: usize)
        ensures
            r == self@.organisms.len(),
    {
        self.organisms.len()
    }

    /// The organism at position `i`.
    pub fn organism(&self, i: usize) -> (r: &Network)
        requires
            i < self@.organisms.len(),
        ensures
            r@ == self@.organisms[i as int],
    {
        &self.organisms[i]
    }

    /// A copy of the organism ranked first at the last ranking; before any
    /// ranking, of the first organism; `None` when there is neither.
    pub fn champion(&self) -> (r: Option<Network>)
        requires
            self.wf(),
        ensures
            r matches Some(c) ==> c.wf(),
            self@.champion matches Some(c) ==> r is Some && r->Some_0@ == c,
            self@.champion is None ==> (r is Some <==> self@.organisms.len() > 0),
            self@.champion is None && r is Some ==> r->Some_0@ == self@.organisms[0],
    {
        match &self.champion {
            Some(c) => Some(c.duplicate()),
            None => if self.organisms.len() > 0 {
                proof {
                    assert(self@.organisms[0].wf());
                }
                Some(self.organisms[0].duplicate())
            } else {
                None
            },
        }
    }

    /// The number of completed generations.
    pub fn generation(&self) -> (r: usize)
        ensures
            r == self@.generation,
    {
        self.generation
    }

    /// The configured population size.
    pub fn population(&self) -> (r: usize)
        ensures
            r == self@.population,
    {
        self.population
    }

    /// The least number of mutations applied to each organism per generation.
    pub fn mutation_rate(&self) -> (r: usize)
        ensures
            r == self@.mutation_rate,
    {
        self.mutation_rate
    }

    /// The greatest number of mutations applied to each organism per generation.
    pub fn mutation_rate_max(&self) -> (r: usize)
        ensures
            r == self@.mutation_rate_max,
    {
        self.mutation_rate_max
    }

    /// The operators mutations are drawn from; all of them, evenly, when empty.
    pub fn mutation_types(&self) -> (r: &Vec<MutationType>)
        ensures
            r@ == self@.mutation_types,
    {
        &self.mutation_types
    }

    /// Takes the operator weights and the range of mutation counts from
    /// `settings`.
    pub fn apply_settings(&mut self, settings: &Settings)
        requires
            old(self).wf(),
        ensures
            final(self).wf(),
            final(self)@ == (EnvironmentView {
                mutation_types: settings.mutation_types@,
                mutation_rate: settings.mutation_rate@.start as nat,
                mutation_rate_max: settings.mutation_rate@.end as nat,
                ..old(self)@
            }),
    {
        let mut types: Vec<MutationType> = Vec::new();
        let mut i: usize = 0;
        while i < settings.mutation_types.len()
            invariant
                i <= settings.mutation_types@.len(),
                types@ == settings.mutation_types@.subrange(0, i as int),
            decreases settings.mutation_types@.len() - i,
        {
            types.push(settings.mutation_types[i]);
            assert(types@ =~= settings.mutation_types@.subrange(0, i + 1));
            i = i + 1;
        }
        assert(types@ =~= settings.mutation_types@);
        self.mutation_types = types;
        self.mutation_rate = *settings.mutation_rate.start();
        self.mutation_rate_max = *settings.mutation_rate.end();
    }

    /// Whether a generation-count stopping rule is met.
    pub fn generations_reached(&self, mode: &TrainingMode) -> (r: bool)
        ensures
            r == (match *mode {
                TrainingMode::NumGenerations(n) => self@.generation >= n,
                TrainingMode::FitnessTarget(_) => false,
            }),
    {
        match mode {
            TrainingMode::NumGenerations(n) => self.generation >= *n,
            TrainingMode::FitnessTarget(_) => false,
        }
    }

    /// Reorders the organisms by a ranking: position `i` afterwards holds
    /// the organism that was at `order[i]`. Refused, with nothing changed,
    /// unless `order` lists every position once.
    pub fn rank(&mut self, order: &Vec<usize>) -> (r: Result<(), EnvironmentError>)
        requires
            old(self).wf(),
        ensures
            final(self).wf(),
            r is Ok <==> is_permutation(order@, old(self)@.organisms.len()),
            r is Err ==> r == Err::<(), EnvironmentError>(EnvironmentError::Ranking) && final(self)@ == old(self)@,
            r is Ok ==> {
                &&& final(self)@.organisms.len() == old(self)@.organisms.len()
                &&& forall|i: int| 0 <= i < order@.len() ==> #[trigger] final(self)@.organisms[i] == old(self)@.organisms[order@[i] as int]
                &&& final(self)@.generation == old(self)@.generation
                &&& final(self)@.population == old(self)@.population
                &&& final(self)@.mutation_rate == old(self)@.mutation_rate
                &&& final(self)@.mutation_rate_max == old(self)@.mutation_rate_max
                &&& final(self)@.mutation_types == old(self)@.mutation_types
                &&& final(self)@.champion == if order@.len() > 0 {
                    Some(old(self)@.organisms[order@[0] as int])
                } else {
                    old(self)@.champion
                }
            },
    {
        let n = self.organisms.len();
        if !Self::ranking_ok(order, n) {
            return Err(EnvironmentError::Ranking);
        }
        let ghost o = self@;
        let mut ranked: Vec<Network> = Vec::new();
        let mut k: usize = 0;
        while k < n
            invariant
                self@ == o,
                o.wf(),
                n == order@.len(),
                n == o.organisms.len(),
                forall|a: int| 0 <= a < n ==> #[trigger] order@[a] < n,
                k <= n,
                ranked@.len() == k,
                forall|a: int| 0 <= a < k ==> #[trigger] ranked@[a]@ == o.organisms[order@[a] as int],
            decreases n - k,
        {
            let copy = self.organisms[order[k]].duplicate();
            ranked.push(copy);
            k = k + 1;
        }
        self.organisms = ranked;
        if n > 0 {
            proof {
                assert(self@.organisms[0].wf());
            }
            self.champion = Some(self.organisms[0].duplicate());
        }
        Ok(())
    }

    /// Builds the next generation from the organisms, sorted by fitness with
    /// the best first: the top five percent (at least one) are kept as seeds,
    /// and each is copied `CLONES` times in turn until the population is full.
    pub fn select_next_gen(&mut self)
        requires
            old(self).wf(),
        ensures
            final(self).wf(),
            selected(old(self)@, final(self)@),
    {
        let ghost o = self@;
        let n = self.population;
        let keep: usize = if n / RETAIN_DIVISOR == 0 { 1 } else { n / RETAIN_DIVISOR };
        let mut next: Vec<Network> = Vec::new();
        let mut i: usize = 0;
        while i < n
            invariant
                self@ == o,
                o.wf(),
                n == o.population,
                keep == seeds_kept(n as nat),
                i <= n,
                next@.len() == i,
                forall|a: int| 0 <= a < i ==> #[trigger] next@[a]@ == o.organisms[seed_of(a, n as nat)],
            decreases n - i,
        {
            proof {
                lemma_seed_of_kept(i as int, n as nat);
            }
            let seed = (i / CLONES) % keep;
            let copy = self.organisms[seed].duplicate();
            next.push(copy);
            i = i + 1;
        }
        self.organisms = next;
        proof {
            assert forall|a: int| 0 <= a < self@.organisms.len() implies (#[trigger] self@.organisms[a]).wf() by {
                lemma_seed_of_kept(a, n as nat);
            }
        }
    }

    /// Applies to every organism a number of random mutations drawn from
    /// `mutation_rate..=mutation_rate_max` (exactly `mutation_rate` when the
    /// range is empty), each with an operator drawn from `mutation_types` and
    /// fresh values drawn from `fresh`. Stops at the first mutation that
    /// fails.
    pub fn mutate<F: Fn() -> Fresh>(&mut self, fresh: &F) -> (r: Result<(), EnvironmentError>)
        requires
            old(self).wf(),
            fresh.requires(()),
        ensures
            final(self).wf(),
            final(self)@.organisms.len() == old(self)@.organisms.len(),
            final(self)@.generation == old(self)@.generation,
            final(self)@.population == old(self)@.population,
            final(self)@.mutation_rate == old(self)@.mutation_rate,
            final(self)@.mutation_rate_max == old(self)@.mutation_rate_max,
            final(self)@.mutation_types == old(self)@.mutation_types,
            final(self)@.champion == old(self)@.champion,
            can_mutate(old(self)@) ==> r is Ok,
            r matches Err(e) ==> e is Network,
            r is Ok ==> forall|i: int| 0 <= i < final(self)@.organisms.len()
                ==> #[trigger] mutation_round(old(self)@, old(self)@.organisms[i], final(self)@.organisms[i]),
    {
        let n = self.organisms.len();
        let mut i: usize = 0;
        while i < n
            invariant
                self.wf(),
                n == self@.organisms.len(),
                n == old(self)@.organisms.len(),
                fresh.requires(()),
                self@.generation == old(self)@.generation,
                self@.population == old(self)@.population,
                self@.mutation_rate == old(self)@.mutation_rate,
                self@.mutation_rate_max == old(self)@.mutation_rate_max,
                self@.mutation_types == old(self)@.mutation_types,
                self@.champion == old(self)@.champion,
                i <= n,
                forall|a: int| i <= a < n ==> #[trigger] self@.organisms[a] == old(self)@.organisms[a],
                forall|a: int| 0 <= a < i ==> #[trigger] mutation_round(old(self)@, old(self)@.organisms[a], self@.organisms[a]),
            decreases n - i,
        {
            proof {
                assert(self@.organisms[i as int].wf());
            }
            let mut organism = self.organisms[i].duplicate();
            let ghost start = organism@;
            let ghost room = room_for_round(old(self)@, start);
            let count = mutation_count(self.mutation_rate, self.mutation_rate_max);
            let mut t: usize = 0;
            let mut failed: Option<NetworkError> = None;
            proof {
                lemma_mutated_zero(start, self@.mutation_types);
            }
            while t < count
                invariant
                    organism.wf(),
                    fresh.requires(()),
                    t <= count,
                    failed is Some ==> t == count,
                    failed is None ==> mutated(start, organism@, self@.mutation_types, t as nat),
                    count <= round_bound(old(self)@),
                    self@.mutation_types == old(self)@.mutation_types,
                    room == room_for_round(old(self)@, start),
                    room ==> failed is None,
                    room ==> layer_ids(organism@.nodes, LayerID::InputLayer) == layer_ids(start.nodes, LayerID::InputLayer),
                    room ==> layer_ids(organism@.nodes, LayerID::OutputLayer) == layer_ids(start.nodes, LayerID::OutputLayer),
                    room ==> organism@.next_node_id <= start.next_node_id + t,
                    room ==> organism@.next_edge_id <= start.next_edge_id + t,
                decreases count - t,
            {
                let f = fresh();
                let ghost prev = organism@;
                proof {
                    if room {
                        if layer_ids(prev.nodes, LayerID::InputLayer).len() > 0 {
                            lemma_layer_ids_nonempty(prev.nodes, LayerID::InputLayer);
                        } else {
                            lemma_layer_ids_nonempty(prev.nodes, LayerID::OutputLayer);
                        }
                    }
                }
                match organism.randomly_mutate(&self.mutation_types, f) {
                    Ok(_) => {
                        proof {
                            lemma_mutated_step(start, prev, organism@, self@.mutation_types, t as nat);
                        }
                        t = t + 1;
                    },
                    Err(e) => {
                        failed = Some(e);
                        t = count;
                    },
                }
            }
            let ghost before = self@;
            self.organisms.set(i, organism);
            proof {
                assert forall|a: int| 0 <= a < self@.organisms.len() implies (#[trigger] self@.organisms[a]).wf() by {
                    if a != i {
                        assert(self@.organisms[a] == before.organisms[a]);
                    }
                }
                assert forall|a: int| i + 1 <= a < n implies #[trigger] self@.organisms[a] == old(self)@.organisms[a] by {
                    assert(self@.organisms[a] == before.organisms[a]);
                }
            }
            match failed {
                Some(e) => {
                    return Err(EnvironmentError::Network(e));
                },
                None => {},
            }
            proof {
                assert(start == old(self)@.organisms[i as int]);
                assert(t == count);
                assert(room_for_round(old(self)@, old(self)@.organisms[i as int]) ==> room);
                assert forall|a: int| 0 <= a < i + 1 implies #[trigger] mutation_round(old(self)@, old(self)@.organisms[a], self@.organisms[a]) by {
                    if a == i {
                        assert(mutated(old(self)@.organisms[a], self@.organisms[a], old(self)@.mutation_types, count as nat));
                    } else {
                        assert(self@.organisms[a] == before.organisms[a]);
                    }
                }
            }
            i = i + 1;
        }
        Ok(())
    }

    /// Runs one generation on organisms whose fitness ranking is `order`
    /// (best first): rank, select, mutate, and count the generation.
    pub fn next_gen<F: Fn() -> Fresh>(&mut self, order: &Vec<usize>, fresh: &F) -> (r: Result<(), EnvironmentError>)
        requires
            old(self).wf(),
            fresh.requires(()),
        ensures
            final(self).wf(),
            final(self)@.population == old(self)@.population,
            !is_permutation(order@, old(self)@.organisms.len()) ==> r == Err::<(), EnvironmentError>(EnvironmentError::Ranking)
                && final(self)@ == old(self)@,
            old(self)@.generation == usize::MAX && is_permutation(order@, old(self)@.organisms.len())
                ==> r == Err::<(), EnvironmentError>(EnvironmentError::GenerationOverflow) && final(self)@ == old(self)@,
            is_permutation(order@, old(self)@.organisms.len()) && old(self)@.generation < usize::MAX
                && can_mutate(old(self)@) ==> r is Ok,
            r == Err::<(), EnvironmentError>(EnvironmentError::Ranking) ==> !is_permutation(order@, old(self)@.organisms.len()),
            r == Err::<(), EnvironmentError>(EnvironmentError::GenerationOverflow) ==> old(self)@.generation == usize::MAX,
            r is Ok ==> final(self)@.generation == old(self)@.generation + 1,
            r is Ok ==> forall|i: int| 0 <= i < final(self)@.organisms.len() ==> #[trigger] mutation_round(
                old(self)@,
                old(self)@.organisms[order@[seed_of(i, old(self)@.population)] as int],
                final(self)@.organisms[i],
            ),
    {
        if !Self::ranking_ok(order, self.organisms.len()) {
            return Err(EnvironmentError::Ranking);
        }
        if self.generation == usize::MAX {
            return Err(EnvironmentError::GenerationOverflow);
        }
        match self.rank(order) {
            Ok(()) => {},
            Err(e) => {
                return Err(e);
            },
        }
        let ghost ranked = self@;
        self.select_next_gen();
        let ghost seeded = self@;
        proof {
            if can_mutate(old(self)@) {
                lemma_room_after_selection(old(self)@, ranked, seeded, order@);
            }
        }
        match self.mutate(fresh) {
            Ok(()) => {},
            Err(e) => {
                return Err(e);
            },
        }
        self.generation = self.generation + 1;
        proof {
            lemma_generation(old(self)@, ranked, seeded, self@, order@);
        }
        Ok(())
    }

    /// Whether `order` lists each of `0..n` once.
    fn ranking_ok(order: &Vec<usize>, n: usize) -> (r: bool)
        ensures
            r == is_permutation(order@, n as nat),
    {
        if order.len() != n {
            return false;
        }
        let mut i: usize = 0;
        while i < n
            invariant
                n == order@.len(),
                i <= n,
                forall|a: int| 0 <= a < i ==> #[trigger] order@[a] < n,
                forall|a: int, b: int| 0 <= a < i && 0 <= b < i && a != b ==> #[trigger] order@[a] != #[trigger] order@[b],
            decreases n - i,
        {
            if order[i] >= n {
                return false;
            }
            let mut j: usize = 0;
            while j < i
                invariant
                    n == order@.len(),
                    j <= i < n,
                    forall|b: int| 0 <= b < j ==> order@[b] != order@[i as int],
                decreases i - j,
            {
                if order[j] == order[i] {
                    return false;
                }
                j = j + 1;
            }
            i = i + 1;
        }
        true
    }
}

/// Builder for an environment.
#[derive(PartialEq, Eq, Structural, Debug, Clone, Copy)]
pub struct EnvironmentBuilder {
    /// The number of input nodes of each organism.
    pub input_size: Option<usize>,
    /// The number of output nodes of each organism.
    pub output_size: Option<usize>,
    /// The population size.
    pub population: Option<usize>,
    /// The default activation function of each organism.
    pub activation_fn: Option<ActivationFn>,
    /// The number of mutations per organism and generation.
    pub mutation_rate: Option<usize>,
}

/// The error building from `b` gives, checking the settings in order, or
/// `None` when it succeeds.
pub open spec fn build_error(b: EnvironmentBuilder) -> Option<EnvironmentError> {
    if b.input_size is None {
        Some(EnvironmentError::InputSizeNotSet)
    } else if b.output_size is None {
        Some(EnvironmentError::OutputSizeNotSet)
    } else if b.activation_fn is None {
        Some(EnvironmentError::ActivationFnNotSet)
    } else if b.population is None {
        Some(EnvironmentError::PopulationNotSet)
    } else if b.mutation_rate is None {
        Some(EnvironmentError::MutationRateNotSet)
    } else if b.input_size->Some_0 + b.output_size->Some_0 >= usize::MAX {
        Some(EnvironmentError::Network(NetworkError::IdsExhausted))
    } else {
        None
    }
}

impl EnvironmentBuilder {
    /// Starts building an environment, with nothing set.
    pub fn init() -> (r: EnvironmentBuilder)
        ensures
            r.input_size is None,
            r.output_size is None,
            r.population is None,
            r.activation_fn is None,
            r.mutation_rate is None,
    {
        EnvironmentBuilder {
            input_size: None,
            output_size: None,
            population: None,
            activation_fn: None,
            mutation_rate: None,
        }
    }

    /// Sets the input size.
    pub fn input_size(self, input_size: usize) -> (r: EnvironmentBuilder)
        ensures
            r == (EnvironmentBuilder { input_size: Some(input_size), ..self }),
    {
        EnvironmentBuilder { input_size: Some(input_size), ..self }
    }

    /// Sets the output size.
    pub fn output_size(self, output_size: usize) -> (r: EnvironmentBuilder)
        ensures
            r == (EnvironmentBuilder { output_size: Some(output_size), ..self }),
    {
        EnvironmentBuilder { output_size: Some(output_size), ..self }
    }

    /// Sets the activation function.
    pub fn activation_fn(self, activation_fn: ActivationFn) -> (r: EnvironmentBuilder)
        ensures
            r == (EnvironmentBuilder { activation_fn: Some(activation_fn), ..self }),
    {
        EnvironmentBuilder { activation_fn: Some(activation_fn), ..self }
    }

    /// Sets the population size.
    pub fn population(self, population: usize) -> (r: EnvironmentBuilder)
        ensures
            r == (EnvironmentBuilder { population: Some(population), ..self }),
    {
        EnvironmentBuilder { population: Some(population), ..self }
    }

    /// Sets the mutation rate.
    pub fn mutation_rate(self, mutation_rate: usize) -> (r: EnvironmentBuilder)
        ensures
            r == (EnvironmentBuilder { mutation_rate: Some(mutation_rate), ..self }),
    {
        EnvironmentBuilder { mutation_rate: Some(mutation_rate), ..self }
    }

    /// Builds the environment: a population of identical fresh networks.
    pub fn try_build(self) -> (r: Result<Environment, EnvironmentError>)
        ensures
            r is Ok <==> build_error(self) is None,
            r matches Err(e) ==> build_error(self) == Some(e),
            r matches Ok(env) ==> {
                &&& env.wf()
                &&& env@.generation == 0
                &&& env@.population == self.population->Some_0
                &&& env@.mutation_rate == self.mutation_rate->Some_0
                &&& env@.mutation_rate_max == self.mutation_rate->Some_0
                &&& env@.mutation_types == Seq::<MutationType>::empty()
                &&& env@.champion is None
                &&& forall|i: int| 0 <= i < env@.organisms.len() ==> #[trigger] env@.organisms[i] == initial_view(
                    self.input_size->Some_0 as nat,
                    self.output_size->Some_0 as nat,
                    self.activation_fn->Some_0,
                )
            },
    {
        let input_size = match self.input_size {
            Some(n) => n,
            None => {
                return Err(EnvironmentError::InputSizeNotSet);
            },
        };
        let output_size = match self.output_size {
            Some(n) => n,
            None => {
                return Err(EnvironmentError::OutputSizeNotSet);
            },
        };
        let activation_fn = match self.activation_fn {
            Some(f) => f,
            None => {
                return Err(EnvironmentError::ActivationFnNotSet);
            },
        };
        let population = match self.population {
            Some(n) => n,
            None => {
                return Err(EnvironmentError::PopulationNotSet);
            },
        };
        let mutation_rate = match self.mutation_rate {
            Some(n) => n,
            None => {
                return Err(EnvironmentError::MutationRateNotSet);
            },
        };
        let first = match Network::create(input_size, output_size, activation_fn) {
            Ok(n) => n,
            Err(e) => {
                return Err(EnvironmentError::Network(e));
            },
        };
        let mut organisms: Vec<Network> = Vec::new();
        let mut i: usize = 0;
        while i < population
            invariant
                first.wf(),
                first@ == initial_view(input_size as nat, output_size as nat, activation_fn),
                i <= population,
                organisms@.len() == i,
                forall|a: int| 0 <= a < i ==> #[trigger] organisms@[a]@ == first@,
            decreases population - i,
        {
            organisms.push(first.duplicate());
            i = i + 1;
        }
        Ok(Environment {
            organisms,
            generation: 0,
            population,
            mutation_rate,
            mutation_rate_max: mutation_rate,
            mutation_types: Vec::new(),
            champion: None,
        })
    }

    /// Builds the environment from settings that are all set and allow it.
    pub fn build(self) -> (r: Environment)
        requires
            build_error(self) is None,
        ensures
            r.wf(),
            r@.generation == 0,
            r@.population == self.population->Some_0,
            r@.mutation_rate == self.mutation_rate->Some_0,
    {
        self.try_build().unwrap()
    }
}

} // verus!
