use vstd::prelude::*;
use crate::arith::Arithmetic;
use crate::error::Error;
use crate::genetic::{
    count_true, crossover, evolved_from, lemma_count_true_append, lemma_count_true_bounds,
    lemma_count_true_take_mono, lemma_evolved_from_lengths, lemma_history_split, mutate,
    MutationDecider,
};
use crate::neuron::concat_inputs;
use crate::network::{NetworkBuilder, NetworkLayout};
use crate::randomizer::RandomProvider;
use crate::simulating_world::SimulatingWorld;
use crate::specimen::SpecimenStatus;
use crate::{Specimen, DEFAULT_MUTATION_PROBABILITY, MINIMUM_POPULATION_SIZE};

verus! {

/// Finish condition for a learning session.
pub enum Finish {
    /// Learning stops after the given number of generations.
    Occurences(usize),
    /// Learning stops after the given number of milliseconds. Declared but
    /// not implemented yet: `run` refuses it.
    Timeout(u64),
}

/// What the world reported for one exchange.
pub struct SimulationStatus {
    /// Whether the specimen lives on, and its fitness.
    pub specimen_status: SpecimenStatus,
    /// The world's tick counter for this episode.
    pub current_tick: usize,
}

/// The ordering key of a fitness scalar: fitness values are compared by the
/// total order on their bit patterns that matches the numeric order of
/// IEEE-754 binary64 values — patterns with the sign bit set (negative
/// values) rank below the rest and among themselves in reversed pattern
/// order.
pub open spec fn fitness_key(f: u64) -> u64 {
    if f >> 63 == 1u64 {
        !f
    } else {
        f | 0x8000_0000_0000_0000u64
    }
}

/// Computes the ordering key of a fitness scalar.
pub fn fitness_key_of(f: u64) -> (r: u64)
    ensures
        r == fitness_key(f),
{
    if f >> 63 == 1u64 {
        !f
    } else {
        f | 0x8000_0000_0000_0000u64
    }
}

/// The pair of positions a stable top-two selection picks from a candidate
/// list: `i0` is the earliest candidate of maximal fitness, and `i1` the
/// earliest candidate, other than `i0`, of maximal fitness among the rest.
pub open spec fn is_stable_top_two(cand: Seq<(usize, u64)>, i0: int, i1: int) -> bool {
    &&& 0 <= i0 < cand.len()
    &&& 0 <= i1 < cand.len()
    &&& i0 != i1
    &&& forall|q: int| 0 <= q < cand.len() ==> fitness_key((#[trigger] cand[q]).1) <= fitness_key(
        cand[i0].1,
    )
    &&& forall|q: int| 0 <= q < i0 ==> fitness_key((#[trigger] cand[q]).1) < fitness_key(cand[i0].1)
    &&& forall|q: int|
        0 <= q < cand.len() && q != i0 ==> fitness_key((#[trigger] cand[q]).1) <= fitness_key(
            cand[i1].1,
        )
    &&& forall|q: int|
        0 <= q < i1 && q != i0 ==> fitness_key((#[trigger] cand[q]).1) < fitness_key(cand[i1].1)
}

/// Picks the two best-ranked candidates, stably: ties go to the candidate
/// recorded first. Returns their positions in the list.
pub fn select_best_two(cand: &Vec<(usize, u64)>) -> (r: (usize, usize))
    requires
        cand@.len() >= 2,
    ensures
        is_stable_top_two(cand@, r.0 as int, r.1 as int),
{
    let mut best: usize = 0;
    let mut second: usize = 1;
    if fitness_key_of(cand[1].1) > fitness_key_of(cand[0].1) {
        best = 1;
        second = 0;
    }
    let mut q: usize = 2;
    while q < cand.len()
        invariant
            2 <= q <= cand@.len(),
            cand@.len() >= 2,
            best < q,
            second < q,
            best != second,
            forall|t: int|
                0 <= t < q ==> fitness_key((#[trigger] cand@[t]).1) <= fitness_key(
                    cand@[best as int].1,
                ),
            forall|t: int|
                0 <= t < best ==> fitness_key((#[trigger] cand@[t]).1) < fitness_key(
                    cand@[best as int].1,
                ),
            forall|t: int|
                0 <= t < q && t != best ==> fitness_key((#[trigger] cand@[t]).1) <= fitness_key(
                    cand@[second as int].1,
                ),
            forall|t: int|
                0 <= t < second && t != best ==> fitness_key((#[trigger] cand@[t]).1) < fitness_key(
                    cand@[second as int].1,
                ),
        decreases cand@.len() - q,
    {
        let key = fitness_key_of(cand[q].1);
        if key > fitness_key_of(cand[best].1) {
            second = best;
            best = q;
        } else if key > fitness_key_of(cand[second].1) {
            second = q;
        }
        q = q + 1;
    }
    (best, second)
}

/// No two candidates carry the same fitness rank.
pub open spec fn distinct_fitness(cand: Seq<(usize, u64)>) -> bool {
    forall|i: int, j: int|
        0 <= i < j < cand.len() ==> fitness_key((#[trigger] cand[i]).1) != fitness_key(
            (#[trigger] cand[j]).1,
        )
}

/// An element of one list stands in any reordering of it.
proof fn lemma_multiset_transfer_contains(s: Seq<(usize, u64)>, t: Seq<(usize, u64)>, v: (usize, u64))
    requires
        s.to_multiset() == t.to_multiset(),
        s.contains(v),
    ensures
        t.contains(v),
{
    broadcast use vstd::seq_lib::group_to_multiset_ensures;

    assert(s.to_multiset().count(v) > 0);
    assert(t.to_multiset().count(v) > 0);
}

/// A reordering cannot give two candidates one fitness rank either.
proof fn lemma_distinct_fitness_transfer(s: Seq<(usize, u64)>, t: Seq<(usize, u64)>)
    requires
        s.to_multiset() == t.to_multiset(),
        distinct_fitness(s),
    ensures
        distinct_fitness(t),
{
    broadcast use vstd::seq_lib::group_to_multiset_ensures;

    assert forall|i: int, j: int| 0 <= i < j < t.len() implies fitness_key(
        (#[trigger] t[i]).1,
    ) != fitness_key((#[trigger] t[j]).1) by {
        if fitness_key(t[i].1) == fitness_key(t[j].1) {
            if t[i] == t[j] {
                // The same candidate twice in `t` means twice in `s`:
                // two positions of `s` would share a fitness rank.
                assert(t.remove(i).to_multiset() =~= t.to_multiset().remove(t[i]));
                assert(t.remove(i)[j - 1] == t[j]);
                assert(t.remove(i).contains(t[j]));
                assert(t.remove(i).to_multiset().count(t[i]) > 0);
                assert(t.to_multiset().count(t[i]) >= 2);
                assert(s.to_multiset().count(t[i]) >= 2);
                assert(s.contains(t[i]));
                let a = choose|a: int| 0 <= a < s.len() && s[a] == t[i];
                assert(s.remove(a).to_multiset() =~= s.to_multiset().remove(s[a]));
                assert(s.remove(a).to_multiset().count(t[i]) >= 1);
                assert(s.remove(a).contains(t[i]));
                let b0 = choose|b0: int| 0 <= b0 < s.remove(a).len() && s.remove(a)[b0] == t[i];
                let b = if b0 < a {
                    b0
                } else {
                    b0 + 1
                };
                assert(s[b] == t[i] && b != a);
            } else {
                // Two different candidates of `t`, both drawn from `s`,
                // would stand at two positions of `s` with one rank.
                assert(t[i] == t[i as int]);
                assert(t.contains(t[i]));
                lemma_multiset_transfer_contains(t, s, t[i]);
                assert(t.contains(t[j]));
                lemma_multiset_transfer_contains(t, s, t[j]);
                let a = choose|a: int| 0 <= a < s.len() && s[a] == t[i];
                let b = choose|b: int| 0 <= b < s.len() && s[b] == t[j];
                assert(a != b);
            }
        }
    }
}

/// The law of parent selection: after recording a set of fitness-labeled
/// candidates, the stable top-two selection retains exactly the two
/// highest-ranked candidates seen, regardless of the order they were
/// recorded in. Stated for candidate lists that are reorderings of one
/// another with pairwise distinct fitness ranks — with ties, which pair of
/// equals survives is part of the discovery order by design.
pub proof fn lemma_selection_insertion_order_invariant(
    s: Seq<(usize, u64)>,
    t: Seq<(usize, u64)>,
    si0: int,
    si1: int,
    ti0: int,
    ti1: int,
)
    requires
        s.to_multiset() == t.to_multiset(),
        distinct_fitness(s),
        is_stable_top_two(s, si0, si1),
        is_stable_top_two(t, ti0, ti1),
    ensures
        t[ti0] == s[si0],
        t[ti1] == s[si1],
{
    broadcast use vstd::seq_lib::group_to_multiset_ensures;

    lemma_distinct_fitness_transfer(s, t);
    assert(s.to_multiset().len() == t.to_multiset().len());
    s.to_multiset_ensures();
    t.to_multiset_ensures();
    assert(t.len() == s.len());
    // The best: both lists select the unique candidate of maximal rank.
    assert(s.contains(s[si0]));
    lemma_multiset_transfer_contains(s, t, s[si0]);
    let p = choose|p: int| 0 <= p < t.len() && t[p] == s[si0];
    assert(t.contains(t[ti0]));
    lemma_multiset_transfer_contains(t, s, t[ti0]);
    let q = choose|q: int| 0 <= q < s.len() && s[q] == t[ti0];
    assert(fitness_key(t[p].1) <= fitness_key(t[ti0].1));
    assert(fitness_key(s[q].1) <= fitness_key(s[si0].1));
    assert(fitness_key(s[q].1) == fitness_key(s[si0].1));
    assert(q == si0);
    // The second best: both lists select the unique candidate of maximal
    // rank among the rest.
    assert(s.contains(s[si1]));
    lemma_multiset_transfer_contains(s, t, s[si1]);
    let p1 = choose|p1: int| 0 <= p1 < t.len() && t[p1] == s[si1];
    assert(p1 != ti0) by {
        if p1 == ti0 {
            assert(s[si1] == s[si0]);
            assert(fitness_key(s[si1].1) == fitness_key(s[si0].1));
        }
    }
    assert(t.contains(t[ti1]));
    lemma_multiset_transfer_contains(t, s, t[ti1]);
    let q1 = choose|q1: int| 0 <= q1 < s.len() && s[q1] == t[ti1];
    assert(q1 != si0) by {
        if q1 == si0 {
            assert(t[ti1] == t[ti0]);
            assert(fitness_key(t[ti1].1) == fitness_key(t[ti0].1));
        }
    }
    assert(fitness_key(t[p1].1) <= fitness_key(t[ti1].1));
    assert(fitness_key(s[q1].1) <= fitness_key(s[si1].1));
    assert(fitness_key(s[q1].1) == fitness_key(s[si1].1));
    assert(q1 == si1);
}

/// All connection weights of a population, in creation order: specimen by
/// specimen, neurons in creation order, weights in position order.
pub open spec fn population_weights<A: Arithmetic>(
    pop: Seq<crate::specimen::Specimen<A>>,
) -> Seq<u64>
    decreases pop.len(),
{
    if pop.len() == 0 {
        Seq::empty()
    } else {
        population_weights(pop.drop_last()) + crate::neuron::concat_inputs(
            pop.last().brain.layout.neurons_view(),
        )
    }
}

/// One more specimen appends exactly its weights.
pub proof fn lemma_population_weights_push<A: Arithmetic>(
    pop: Seq<crate::specimen::Specimen<A>>,
    s: crate::specimen::Specimen<A>,
)
    ensures
        population_weights(pop.push(s)) == population_weights(pop) + crate::neuron::concat_inputs(
            s.brain.layout.neurons_view(),
        ),
{
    assert(pop.push(s).drop_last() =~= pop);
    assert(pop.push(s).last() == s);
}

/// The record of the last scored generation: the population as it stood
/// once every specimen had run its episode, the candidate list recorded
/// for it — one `(index, fitness)` entry per specimen, in population order
/// — and the two candidate positions the selection picked.
pub ghost struct ScoredRound<A: Arithmetic> {
    /// The scored population, fitness values included.
    pub population: Seq<crate::specimen::Specimen<A>>,
    /// The candidates recorded for it, one per specimen.
    pub candidates: Seq<(usize, u64)>,
    /// The position of the best-ranked candidate.
    pub best: int,
    /// The position of the second-best-ranked candidate.
    pub second: int,
}

/// `first` and `second` are the selection of a scored round: the round's
/// candidate list names every specimen of its population with that
/// specimen's fitness, the round's two positions are the stable top-two of
/// that list, and the pair holds copies of the two specimens standing
/// there — genome for genome, each with the fitness it was scored at.
pub open spec fn selected_from<A: Arithmetic>(
    round: ScoredRound<A>,
    first: Specimen,
    second: Specimen,
) -> bool {
    &&& round.candidates.len() == round.population.len()
    &&& forall|i: int| 0 <= i < round.candidates.len() ==> (#[trigger] round.candidates[i]).0 == i
    &&& forall|i: int|
        0 <= i < round.candidates.len() ==> (#[trigger] round.candidates[i]).1
            == round.population[i].fitness
    &&& is_stable_top_two(round.candidates, round.best, round.second)
    &&& first.fitness == round.candidates[round.best].1
    &&& second.fitness == round.candidates[round.second].1
    &&& first.brain.neurons_view() == round.population[round.best].brain.layout.neurons_view()
    &&& first.brain.layers_view() == round.population[round.best].brain.layout.layers_view()
    &&& second.brain.neurons_view() == round.population[round.second].brain.layout.neurons_view()
    &&& second.brain.layers_view() == round.population[round.second].brain.layout.layers_view()
}

/// Main struct that drives the learning: a population of specimens, the
/// world type they are scored in, and the sources that feed construction
/// and mutation.
pub struct Simulation<W: SimulatingWorld, A: Arithmetic + Copy, R: RandomProvider, D: MutationDecider> {
    /// The fixed-size population of live specimens.
    pub population: Vec<crate::specimen::Specimen<A>>,
    /// The world of the episode currently running, if any.
    pub world: Option<W>,
    parents: Vec<(usize, u64)>,
    randomizer: R,
    decider: D,
    arith: A,
    mutation_probability: u64,
    counter: usize,
    round: Ghost<Option<ScoredRound<A>>>,
}

impl<W: SimulatingWorld, A: Arithmetic + Copy, R: RandomProvider, D: MutationDecider> Simulation<
    W,
    A,
    R,
    D,
> {
    /// The parent candidates recorded so far: specimen index and fitness.
    pub closed spec fn spec_parents(&self) -> Seq<(usize, u64)> {
        self.parents@
    }

    /// The population as a sequence of specimens.
    pub closed spec fn spec_population(&self) -> Seq<crate::specimen::Specimen<A>> {
        self.population@
    }

    /// The world of the episode currently running, if any.
    pub closed spec fn spec_world(&self) -> Option<W> {
        self.world
    }

    /// How many generations have been run so far.
    pub closed spec fn spec_counter(&self) -> int {
        self.counter as int
    }

    /// The per-weight mutation probability in use.
    pub closed spec fn spec_mutation_probability(&self) -> u64 {
        self.mutation_probability
    }

    /// The random source, with its history of draws.
    pub closed spec fn spec_randomizer(&self) -> R {
        self.randomizer
    }

    /// The mutation decision source, with its history of decisions.
    pub closed spec fn spec_decider(&self) -> D {
        self.decider
    }

    /// The scalar arithmetic in use.
    pub closed spec fn spec_arith(&self) -> A {
        self.arith
    }

    /// The last scored generation, if any generation was ever scored.
    pub closed spec fn spec_last_round(&self) -> Option<ScoredRound<A>> {
        self.round@
    }

    /// The population stands freshly reseeded: every slot holds fitness
    /// zero and a genome of the seed's topology.
    pub open spec fn reseeded_from(&self, seed: Specimen) -> bool {
        &&& forall|i: int|
            0 <= i < self.spec_population().len() ==> (#[trigger] self.spec_population()[i]).fitness
                == 0
        &&& forall|i: int|
            0 <= i < self.spec_population().len() ==> (#[trigger] self.spec_population()[i]).brain.layout.layers_view()
                == seed.brain.layers_view()
    }

    /// The standing invariant of a simulation: the population is even-sized
    /// and at least the minimum, every genome is well-formed, and all
    /// genomes share one layer structure, so any two can be recombined.
    pub open spec fn wf(&self) -> bool {
        &&& self.spec_population().len() >= MINIMUM_POPULATION_SIZE
        &&& self.spec_population().len() % 2 == 0
        &&& forall|i: int|
            0 <= i < self.spec_population().len() ==> (#[trigger] self.spec_population()[i]).brain.layout.wf()
        &&& forall|i: int|
            0 <= i < self.spec_population().len() ==> (#[trigger] self.spec_population()[i]).brain.layout.layers_view()
                == self.spec_population()[0].brain.layout.layers_view()
        &&& forall|i: int|
            0 <= i < self.spec_population().len() ==> (#[trigger] self.spec_population()[i]).brain.layout.neurons_view().len()
                == self.spec_population()[0].brain.layout.neurons_view().len()
    }

    /// Creates a new simulation.
    ///
    /// Succeeds exactly when the population size is even and at least
    /// [`MINIMUM_POPULATION_SIZE`] and the topology has at least two
    /// layers; every specimen then carries an independently built genome —
    /// the random source is drawn from once per weight, specimen after
    /// specimen — and fitness zero.
    pub fn new(
        population_size: usize,
        neurons_per_layer: &Vec<usize>,
        randomizer: R,
        decider: D,
        arith: A,
        mutation_probability: Option<u64>,
    ) -> (r: Result<Simulation<W, A, R, D>, Error>)
        ensures
            r is Ok <==> (population_size >= MINIMUM_POPULATION_SIZE && population_size % 2 == 0
                && neurons_per_layer@.len() >= 2),
            r is Err ==> r == Result::<Simulation<W, A, R, D>, Error>::Err(
                Error::ConfigurationError,
            ),
            r is Ok ==> ({
                let s = r->Ok_0;
                &&& s.wf()
                &&& s.spec_population().len() == population_size
                &&& forall|i: int|
                    0 <= i < population_size ==> (#[trigger] s.spec_population()[i]).fitness == 0
                &&& forall|i: int|
                    0 <= i < population_size ==> crate::network::built_layout(
                        (#[trigger] s.spec_population()[i]).brain.layout,
                        neurons_per_layer@,
                        true,
                        arith.spec_one(),
                    )
                &&& forall|i: int|
                    0 <= i < population_size ==> (#[trigger] s.spec_population()[i]).brain.arith == arith
                &&& s.spec_counter() == 0
                &&& s.spec_parents().len() == 0
                &&& s.spec_last_round() is None
                &&& s.spec_arith() == arith
                &&& s.spec_mutation_probability() == (match mutation_probability {
                    Some(p) => p,
                    None => DEFAULT_MUTATION_PROBABILITY,
                })
                &&& s.spec_randomizer().drawn() == randomizer.drawn() + population_weights(
                    s.spec_population(),
                )
                &&& s.spec_decider().decided() == decider.decided()
            }),
    {
        if population_size < MINIMUM_POPULATION_SIZE {
            return Err(Error::ConfigurationError);
        }
        if population_size % 2 != 0 {
            return Err(Error::ConfigurationError);
        }
        if neurons_per_layer.len() < 2 {
            return Err(Error::ConfigurationError);
        }
        let ghost pre_drawn = randomizer.drawn();
        let mut randomizer = randomizer;
        let mut population: Vec<crate::specimen::Specimen<A>> = Vec::new();
        let mut i: usize = 0;
        while i < population_size
            invariant
                i <= population_size,
                population@.len() == i,
                neurons_per_layer@.len() >= 2,
                randomizer.drawn() == pre_drawn + population_weights(population@),
                forall|t: int| 0 <= t < i ==> (#[trigger] population@[t]).fitness == 0,
                forall|t: int|
                    0 <= t < i ==> crate::network::built_layout(
                        (#[trigger] population@[t]).brain.layout,
                        neurons_per_layer@,
                        true,
                        arith.spec_one(),
                    ),
                forall|t: int| 0 <= t < i ==> (#[trigger] population@[t]).brain.arith == arith,
            decreases population_size - i,
        {
            let builder = NetworkBuilder::<A, R>::new().with_neurons_per_layer(
                crate::layer::clone_indices(neurons_per_layer),
            ).with_randomizer(randomizer).with_activator(arith);
            let ghost old_pop = population@;
            match builder.build() {
                Ok((net, randomizer_back)) => {
                    randomizer = randomizer_back;
                    let specimen = crate::specimen::Specimen { brain: net, fitness: 0u64 };
                    proof {
                        lemma_population_weights_push(old_pop, specimen);
                    }
                    population.push(specimen);
                },
                Err(_) => {
                    proof {
                        assert(false);
                    }
                    return Err(Error::ConfigurationError);
                },
            }
            i = i + 1;
        }
        let result = Simulation {
            population,
            world: None,
            parents: Vec::new(),
            randomizer,
            decider,
            arith,
            mutation_probability: match mutation_probability {
                Some(p) => p,
                None => DEFAULT_MUTATION_PROBABILITY,
            },
            counter: 0,
            round: Ghost(None),
        };
        proof {
            assert forall|t: int| 0 <= t < population_size implies (
            #[trigger] result.spec_population()[t]).brain.layout.layers_view()
                == result.spec_population()[0].brain.layout.layers_view() && result.spec_population()[t].brain.layout.neurons_view().len()
                == result.spec_population()[0].brain.layout.neurons_view().len() by {
                crate::network::lemma_built_rows_equal(
                    result.spec_population()[t].brain.layout,
                    result.spec_population()[0].brain.layout,
                    neurons_per_layer@,
                    true,
                    arith.spec_one(),
                    arith.spec_one(),
                );
            }
        }
        Ok(result)
    }

    /// How many generations the most recent learning session ran.
    pub fn get_number_of_iterations(&self) -> (r: usize)
        ensures
            r as int == self.spec_counter(),
    {
        self.counter
    }

    /// Records the specimen at `candidate_index`, with its current fitness,
    /// as a parent candidate.
    pub fn add_parent_candidate(&mut self, candidate_index: usize)
        requires
            candidate_index < old(self).spec_population().len(),
        ensures
            final(self).spec_parents() == old(self).spec_parents().push(
                (candidate_index, old(self).spec_population()[candidate_index as int].fitness),
            ),
            final(self).spec_population() == old(self).spec_population(),
            final(self).spec_world() == old(self).spec_world(),
            final(self).spec_counter() == old(self).spec_counter(),
            final(self).spec_randomizer() == old(self).spec_randomizer(),
            final(self).spec_decider() == old(self).spec_decider(),
            final(self).spec_arith() == old(self).spec_arith(),
            final(self).spec_mutation_probability() == old(self).spec_mutation_probability(),
            final(self).spec_last_round() == old(self).spec_last_round(),
    {
        let fitness = self.population[candidate_index].fitness;
        self.parents.push((candidate_index, fitness));
    }

    /// Breeds one pair of children from a parent pair: single-point
    /// crossover of the genomes followed by per-weight mutation, with the
    /// simulation's own sources. The exact outcome is stated by
    /// [`evolved_from`]; fitness starts at zero.
    pub(crate) fn evolve(&mut self, parents: &[Specimen; 2]) -> (r: (Specimen, Specimen))
        requires
            parents@[0].brain.wf(),
            parents@[1].brain.wf(),
            parents@[1].brain.layers_view() == parents@[0].brain.layers_view(),
            parents@[1].brain.neurons@.len() == parents@[0].brain.neurons@.len(),
        ensures
            final(self).spec_population() == old(self).spec_population(),
            final(self).spec_parents() == old(self).spec_parents(),
            final(self).spec_counter() == old(self).spec_counter(),
            final(self).spec_arith() == old(self).spec_arith(),
            final(self).spec_mutation_probability() == old(self).spec_mutation_probability(),
            final(self).spec_last_round() == old(self).spec_last_round(),
            r.0.fitness == 0 && r.1.fitness == 0,
            r.0.brain.wf() && r.1.brain.wf(),
            evolved_from(
                parents@[0].brain,
                parents@[1].brain,
                r.0.brain,
                r.1.brain,
                final(self).spec_decider().decided().skip(
                    old(self).spec_decider().decided().len() as int,
                ),
                final(self).spec_randomizer().drawn().skip(
                    old(self).spec_randomizer().drawn().len() as int,
                ),
            ),
            final(self).spec_decider().decided().len() >= old(self).spec_decider().decided().len(),
            final(self).spec_randomizer().drawn().len() >= old(self).spec_randomizer().drawn().len(),
            final(self).spec_decider().decided().take(old(self).spec_decider().decided().len() as int)
                == old(self).spec_decider().decided(),
            final(self).spec_randomizer().drawn().take(old(self).spec_randomizer().drawn().len() as int)
                == old(self).spec_randomizer().drawn(),
    {
        let brains = [
            crate::genetic::duplicate_layout(&parents[0].brain),
            crate::genetic::duplicate_layout(&parents[1].brain),
        ];
        let children = crossover(&brains);
        let ghost c0 = children@[0];
        let ghost c1 = children@[1];
        let (m0, m1) = mutate(
            children,
            &mut self.randomizer,
            &mut self.decider,
            self.mutation_probability,
        );
        proof {
            crate::genetic::lemma_mixed_wf(parents@[0].brain, parents@[1].brain, c0);
            crate::genetic::lemma_mixed_wf(parents@[0].brain, parents@[1].brain, c1);
            crate::genetic::lemma_same_shape_wf(c0, m0);
            crate::genetic::lemma_same_shape_wf(c1, m1);
        }
        (Specimen { brain: m0, fitness: 0u64 }, Specimen { brain: m1, fitness: 0u64 })
    }

    /// Replaces the whole population, pair of slots by pair of slots, with
    /// freshly bred children of the given parent pair, resetting every
    /// fitness to zero. The recorded parent candidates are cleared.
    ///
    /// Every pair of slots is one breeding step: slots `2k` and `2k + 1`
    /// hold the `k`-th pair of children bred from the parents, with the
    /// coin decisions and replacement draws spent pair after pair —
    /// [`evolved_from`] states each pair exactly over its slice of the two
    /// sources' histories.
    #[verifier::rlimit(100)]
    pub(crate) fn evolve_population(&mut self, parents: &[Specimen; 2])
        requires
            old(self).wf(),
            parents@[0].brain.wf(),
            parents@[1].brain.wf(),
            parents@[1].brain.layers_view() == parents@[0].brain.layers_view(),
            parents@[1].brain.neurons@.len() == parents@[0].brain.neurons@.len(),
        ensures
            final(self).wf(),
            final(self).spec_parents().len() == 0,
            final(self).spec_population().len() == old(self).spec_population().len(),
            final(self).spec_counter() == old(self).spec_counter(),
            final(self).spec_arith() == old(self).spec_arith(),
            final(self).spec_mutation_probability() == old(self).spec_mutation_probability(),
            final(self).spec_last_round() == old(self).spec_last_round(),
            forall|i: int|
                0 <= i < final(self).spec_population().len() ==> (#[trigger] final(self).spec_population()[i]).fitness == 0,
            forall|i: int|
                0 <= i < final(self).spec_population().len() ==> (#[trigger] final(self).spec_population()[i]).brain.layout.layers_view() == parents@[0].brain.layers_view(),
            final(self).spec_decider().decided().take(old(self).spec_decider().decided().len() as int)
                == old(self).spec_decider().decided(),
            final(self).spec_randomizer().drawn().take(old(self).spec_randomizer().drawn().len() as int)
                == old(self).spec_randomizer().drawn(),
            ({
                let flips = final(self).spec_decider().decided().skip(
                    old(self).spec_decider().decided().len() as int,
                );
                let draws = final(self).spec_randomizer().drawn().skip(
                    old(self).spec_randomizer().drawn().len() as int,
                );
                let w = concat_inputs(parents@[0].brain.neurons_view()).len() as int
                    + concat_inputs(parents@[1].brain.neurons_view()).len() as int;
                let half = old(self).spec_population().len() as int / 2;
                &&& flips.len() == half * w
                &&& draws.len() == count_true(flips)
                &&& forall|k: int|
                    0 <= k < half ==> evolved_from(
                        parents@[0].brain,
                        parents@[1].brain,
                        (#[trigger] final(self).spec_population()[2 * k]).brain.layout,
                        final(self).spec_population()[2 * k + 1].brain.layout,
                        flips.subrange(k * w, (k + 1) * w),
                        draws.subrange(
                            count_true(flips.take(k * w)),
                            count_true(flips.take((k + 1) * w)),
                        ),
                    )
            }),
    {
        self.parents = Vec::new();
        let half = self.population.len() / 2;
        let ghost pop_len = self.population@.len() as int;
        let ghost pre_dec = self.spec_decider().decided();
        let ghost pre_drawn = self.spec_randomizer().drawn();
        let ghost w = concat_inputs(parents@[0].brain.neurons_view()).len() as int
            + concat_inputs(parents@[1].brain.neurons_view()).len() as int;
        proof {
            assert(self.spec_decider().decided().skip(pre_dec.len() as int) =~= Seq::<
                bool,
            >::empty());
            assert(self.spec_randomizer().drawn().skip(pre_drawn.len() as int) =~= Seq::<
                u64,
            >::empty());
            assert(self.spec_decider().decided().take(pre_dec.len() as int) =~= pre_dec);
            assert(self.spec_randomizer().drawn().take(pre_drawn.len() as int) =~= pre_drawn);
        }
        let mut i: usize = 0;
        while i < half
            invariant
                i <= half,
                half == pop_len / 2,
                pop_len % 2 == 0,
                pop_len >= MINIMUM_POPULATION_SIZE,
                pop_len <= usize::MAX,
                self.spec_population().len() == pop_len,
                self.spec_parents().len() == 0,
                self.spec_counter() == old(self).spec_counter(),
                self.spec_arith() == old(self).spec_arith(),
                self.spec_mutation_probability() == old(self).spec_mutation_probability(),
                self.spec_last_round() == old(self).spec_last_round(),
                parents@[0].brain.wf(),
                parents@[1].brain.wf(),
                parents@[1].brain.layers_view() == parents@[0].brain.layers_view(),
                parents@[1].brain.neurons@.len() == parents@[0].brain.neurons@.len(),
                forall|t: int|
                    0 <= t < 2 * i ==> (#[trigger] self.spec_population()[t]).fitness == 0,
                forall|t: int|
                    0 <= t < 2 * i ==> (#[trigger] self.spec_population()[t]).brain.layout.wf(),
                forall|t: int|
                    0 <= t < 2 * i ==> (#[trigger] self.spec_population()[t]).brain.layout.layers_view()
                        == parents@[0].brain.layers_view(),
                forall|t: int|
                    0 <= t < 2 * i ==> (#[trigger] self.spec_population()[t]).brain.layout.neurons_view().len()
                        == parents@[0].brain.neurons_view().len(),
                forall|t: int|
                    2 * i <= t < pop_len ==> #[trigger] self.spec_population()[t]
                        == old(self).spec_population()[t],
                0 <= w,
                w == concat_inputs(parents@[0].brain.neurons_view()).len() as int + concat_inputs(
                    parents@[1].brain.neurons_view(),
                ).len() as int,
                pre_dec == old(self).spec_decider().decided(),
                pre_drawn == old(self).spec_randomizer().drawn(),
                self.spec_decider().decided().take(pre_dec.len() as int) == pre_dec,
                self.spec_randomizer().drawn().take(pre_drawn.len() as int) == pre_drawn,
                self.spec_decider().decided().len() == pre_dec.len() + (i as int) * w,
                self.spec_randomizer().drawn().len() == pre_drawn.len() + count_true(
                    self.spec_decider().decided().skip(pre_dec.len() as int),
                ),
                forall|k: int|
                    0 <= k < i ==> evolved_from(
                        parents@[0].brain,
                        parents@[1].brain,
                        (#[trigger] self.spec_population()[2 * k]).brain.layout,
                        self.spec_population()[2 * k + 1].brain.layout,
                        self.spec_decider().decided().skip(pre_dec.len() as int).subrange(
                            k * w,
                            (k + 1) * w,
                        ),
                        self.spec_randomizer().drawn().skip(pre_drawn.len() as int).subrange(
                            count_true(
                                self.spec_decider().decided().skip(pre_dec.len() as int).take(
                                    k * w,
                                ),
                            ),
                            count_true(
                                self.spec_decider().decided().skip(pre_dec.len() as int).take(
                                    (k + 1) * w,
                                ),
                            ),
                        ),
                    ),
            decreases half - i,
        {
            let ghost mid_dec = self.spec_decider().decided();
            let ghost mid_drawn = self.spec_randomizer().drawn();
            let (e0, e1) = self.evolve(parents);
            let ghost f_i = self.spec_decider().decided().skip(mid_dec.len() as int);
            let ghost d_i = self.spec_randomizer().drawn().skip(mid_drawn.len() as int);
            let arith = self.arith;
            proof {
                assert(2 * i + 1 < pop_len);
                assert(e0.brain.neurons_view().len() == parents@[0].brain.neurons_view().len());
                assert(e1.brain.neurons_view().len() == parents@[0].brain.neurons_view().len());
                lemma_evolved_from_lengths(
                    parents@[0].brain,
                    parents@[1].brain,
                    e0.brain,
                    e1.brain,
                    f_i,
                    d_i,
                );
            }
            self.population.set(
                2 * i,
                crate::specimen::Specimen { brain: crate::network::Network { layout: e0.brain, arith }, fitness: 0u64 },
            );
            self.population.set(
                2 * i + 1,
                crate::specimen::Specimen { brain: crate::network::Network { layout: e1.brain, arith }, fitness: 0u64 },
            );
            i = i + 1;
            proof {
                let ii = i as int;
                let flips = self.spec_decider().decided().skip(pre_dec.len() as int);
                let draws = self.spec_randomizer().drawn().skip(pre_drawn.len() as int);
                let flips_mid = mid_dec.skip(pre_dec.len() as int);
                let draws_mid = mid_drawn.skip(pre_drawn.len() as int);
                assert((ii - 1) * w >= 0) by (nonlinear_arith)
                    requires
                        ii >= 1,
                        w >= 0,
                ;
                assert(mid_dec.len() >= pre_dec.len());
                lemma_count_true_bounds(flips_mid);
                assert(mid_drawn.len() >= pre_drawn.len());
                lemma_history_split(pre_dec.len() as int, mid_dec, self.spec_decider().decided());
                lemma_history_split(
                    pre_drawn.len() as int,
                    mid_drawn,
                    self.spec_randomizer().drawn(),
                );
                assert(flips == flips_mid + f_i);
                assert(draws == draws_mid + d_i);
                lemma_count_true_append(flips_mid, f_i);
                assert(flips_mid.len() == (ii - 1) * w);
                assert((ii - 1) * w + w == ii * w) by (nonlinear_arith);
                assert(flips.len() == ii * w);
                assert(count_true(flips_mid) == draws_mid.len());
                assert(flips.take((ii - 1) * w) =~= flips_mid);
                assert(flips.take(ii * w) =~= flips);
                assert(flips.subrange((ii - 1) * w, ii * w) =~= f_i);
                assert(count_true(flips.take((ii - 1) * w)) == draws_mid.len());
                assert(count_true(flips.take(ii * w)) == draws_mid.len() + d_i.len());
                assert(draws.subrange(
                    draws_mid.len() as int,
                    draws_mid.len() as int + d_i.len() as int,
                ) =~= d_i);
                assert forall|k: int| 0 <= k < i implies evolved_from(
                    parents@[0].brain,
                    parents@[1].brain,
                    (#[trigger] self.spec_population()[2 * k]).brain.layout,
                    self.spec_population()[2 * k + 1].brain.layout,
                    flips.subrange(k * w, (k + 1) * w),
                    draws.subrange(
                        count_true(flips.take(k * w)),
                        count_true(flips.take((k + 1) * w)),
                    ),
                ) by {
                    if k < ii - 1 {
                        assert(0 <= k * w && k * w <= (k + 1) * w && (k + 1) * w <= (ii - 1)
                            * w) by (nonlinear_arith)
                            requires
                                0 <= k,
                                k + 1 <= ii - 1,
                                0 <= w,
                        ;
                        assert(flips.take(k * w) =~= flips_mid.take(k * w));
                        assert(flips.take((k + 1) * w) =~= flips_mid.take((k + 1) * w));
                        assert(flips.subrange(k * w, (k + 1) * w) =~= flips_mid.subrange(
                            k * w,
                            (k + 1) * w,
                        ));
                        lemma_count_true_bounds(flips_mid.take(k * w));
                        lemma_count_true_take_mono(flips_mid, k * w, (k + 1) * w);
                        lemma_count_true_take_mono(flips_mid, (k + 1) * w, flips_mid.len() as int);
                        assert(flips_mid.take(flips_mid.len() as int) =~= flips_mid);
                        assert(count_true(flips_mid.take((k + 1) * w)) <= draws_mid.len());
                        assert(draws.subrange(
                            count_true(flips_mid.take(k * w)),
                            count_true(flips_mid.take((k + 1) * w)),
                        ) =~= draws_mid.subrange(
                            count_true(flips_mid.take(k * w)),
                            count_true(flips_mid.take((k + 1) * w)),
                        ));
                    }
                }
            }
        }
        proof {
            assert(2 * (pop_len / 2) == pop_len);
            assert forall|t: int|
                0 <= t < self.spec_population().len() implies (#[trigger] self.spec_population()[t]).brain.layout.layers_view()
                == self.spec_population()[0].brain.layout.layers_view() && self.spec_population()[t].brain.layout.neurons_view().len()
                == self.spec_population()[0].brain.layout.neurons_view().len() by {
                assert(self.spec_population()[0].brain.layout.layers_view() == parents@[0].brain.layers_view());
            }
            assert((half as int) * w >= 0) by (nonlinear_arith)
                requires
                    half as int >= 0,
                    w >= 0,
            ;
            assert(self.spec_decider().decided().len() == pre_dec.len() + (half as int) * w);
            assert(self.spec_decider().decided().skip(pre_dec.len() as int).len() == (half as int)
                * w);
            assert(half as int == pop_len / 2);
            lemma_count_true_bounds(self.spec_decider().decided().skip(pre_dec.len() as int));
            assert(self.spec_randomizer().drawn().skip(pre_drawn.len() as int).len() == count_true(
                self.spec_decider().decided().skip(pre_dec.len() as int),
            ));
        }
    }

    /// Scores the whole population: runs one episode per specimen against a
    /// fresh world, episode after episode, records one `(index, fitness)`
    /// candidate per specimen, and returns copies of the two best-ranked
    /// specimens, stably by fitness order.
    ///
    /// An episode ends when the world reports the specimen dead; a world
    /// that never does would make the episode spin forever, so after an
    /// astronomically large number of exchanges the session gives up with
    /// `NoSelectionError`, treating it as a broken world integration.
    fn simulate(&mut self) -> (r: Result<[Specimen; 2], Error>)
        requires
            old(self).wf(),
            old(self).spec_parents().len() == 0,
        ensures
            final(self).wf(),
            final(self).spec_counter() == old(self).spec_counter(),
            final(self).spec_arith() == old(self).spec_arith(),
            final(self).spec_mutation_probability() == old(self).spec_mutation_probability(),
            final(self).spec_randomizer() == old(self).spec_randomizer(),
            final(self).spec_decider() == old(self).spec_decider(),
            final(self).spec_population().len() == old(self).spec_population().len(),
            forall|i: int|
                0 <= i < old(self).spec_population().len()
                    ==> (#[trigger] final(self).spec_population()[i]).brain.layout.layers_view()
                    == old(self).spec_population()[i].brain.layout.layers_view(),
            match r {
                Ok(pair) => {
                    &&& final(self).spec_last_round() is Some
                    &&& final(self).spec_last_round()->0.population == final(self).spec_population()
                    &&& final(self).spec_last_round()->0.candidates == final(self).spec_parents()
                    &&& selected_from(final(self).spec_last_round()->0, pair@[0], pair@[1])
                    &&& pair@[0].brain.wf()
                    &&& pair@[1].brain.wf()
                    &&& pair@[1].brain.layers_view() == pair@[0].brain.layers_view()
                    &&& pair@[1].brain.neurons@.len() == pair@[0].brain.neurons@.len()
                },
                Err(e) => {
                    &&& (e == Error::ShapeMismatchError || e == Error::EmptyNetworkError || e
                        == Error::NoSelectionError)
                    &&& final(self).spec_last_round() == old(self).spec_last_round()
                },
            },
    {
        let population_len = self.population.len();
        let mut specimen_index: usize = 0;
        while specimen_index < population_len
            invariant
                specimen_index <= population_len,
                self.wf(),
                population_len == self.spec_population().len(),
                population_len == old(self).spec_population().len(),
                self.spec_counter() == old(self).spec_counter(),
                self.spec_arith() == old(self).spec_arith(),
                self.spec_mutation_probability() == old(self).spec_mutation_probability(),
                self.spec_randomizer() == old(self).spec_randomizer(),
                self.spec_decider() == old(self).spec_decider(),
                self.spec_last_round() == old(self).spec_last_round(),
                self.spec_parents().len() == specimen_index,
                forall|i: int|
                    0 <= i < specimen_index ==> (#[trigger] self.spec_parents()[i]).0 == i,
                forall|i: int|
                    0 <= i < specimen_index ==> (#[trigger] self.spec_parents()[i]).1
                        == self.spec_population()[i].fitness,
                forall|i: int|
                    0 <= i < population_len ==> (#[trigger] self.spec_population()[i]).brain.layout.layers_view()
                        == old(self).spec_population()[i].brain.layout.layers_view(),
            decreases population_len - specimen_index,
        {
            let mut world = W::new();
            let ghost pre_pop = self.spec_population();
            let mut specimen = self.population.remove(specimen_index);
            let ghost entry_layout = specimen.brain.layout;
            let mut fitness_found: Option<u64> = None;
            let mut failure: Option<Error> = None;
            let mut current_state = world.get_world_state();
            let mut steps: usize = 0;
            while fitness_found.is_none() && failure.is_none() && steps < usize::MAX
                invariant
                    specimen.brain.layout.wf(),
                    specimen.brain.layout.layers_view() == entry_layout.layers_view(),
                    specimen.brain.layout.neurons_view().len() == entry_layout.neurons_view().len(),
                    failure is Some ==> (failure == Some(Error::ShapeMismatchError) || failure
                        == Some(Error::EmptyNetworkError)),
                decreases usize::MAX - steps,
            {
                match specimen.tick(&current_state) {
                    Ok(output) => {
                        let status = world.tick(&output);
                        match status.specimen_status {
                            SpecimenStatus::DEAD(f) => {
                                fitness_found = Some(f);
                            },
                            SpecimenStatus::ALIVE(_) => {
                                current_state = world.get_world_state();
                            },
                        }
                    },
                    Err(e) => {
                        failure = Some(e);
                    },
                }
                steps = steps + 1;
            }
            self.world = Some(world);
            match failure {
                Some(e) => {
                    self.population.insert(specimen_index, specimen);
                    proof {
                        let cur = self.spec_population();
                        assert(cur =~= pre_pop.update(
                            specimen_index as int,
                            cur[specimen_index as int],
                        ));
                        assert(entry_layout == pre_pop[specimen_index as int].brain.layout);
                        assert forall|i: int| 0 <= i < cur.len() implies (#[trigger] cur[i]).brain.layout.wf()
                            && cur[i].brain.layout.layers_view()
                            == pre_pop[i].brain.layout.layers_view()
                            && cur[i].brain.layout.neurons_view().len()
                            == pre_pop[i].brain.layout.neurons_view().len() by {
                            if i != specimen_index {
                                assert(cur[i] == pre_pop[i]);
                            }
                        }
                    }
                    return Err(e);
                },
                None => {},
            }
            match fitness_found {
                None => {
                    self.population.insert(specimen_index, specimen);
                    proof {
                        let cur = self.spec_population();
                        assert(cur =~= pre_pop.update(
                            specimen_index as int,
                            cur[specimen_index as int],
                        ));
                        assert(entry_layout == pre_pop[specimen_index as int].brain.layout);
                        assert forall|i: int| 0 <= i < cur.len() implies (#[trigger] cur[i]).brain.layout.wf()
                            && cur[i].brain.layout.layers_view()
                            == pre_pop[i].brain.layout.layers_view()
                            && cur[i].brain.layout.neurons_view().len()
                            == pre_pop[i].brain.layout.neurons_view().len() by {
                            if i != specimen_index {
                                assert(cur[i] == pre_pop[i]);
                            }
                        }
                    }
                    return Err(Error::NoSelectionError);
                },
                Some(f) => {
                    specimen.fitness = f;
                    self.population.insert(specimen_index, specimen);
                    proof {
                        let cur = self.spec_population();
                        assert(cur =~= pre_pop.update(
                            specimen_index as int,
                            cur[specimen_index as int],
                        ));
                        assert(entry_layout == pre_pop[specimen_index as int].brain.layout);
                        assert forall|i: int| 0 <= i < cur.len() implies (#[trigger] cur[i]).brain.layout.wf()
                            && cur[i].brain.layout.layers_view()
                            == pre_pop[i].brain.layout.layers_view()
                            && cur[i].brain.layout.neurons_view().len()
                            == pre_pop[i].brain.layout.neurons_view().len() by {
                            if i != specimen_index {
                                assert(cur[i] == pre_pop[i]);
                            }
                        }
                    }
                    self.add_parent_candidate(specimen_index);
                },
            }
            specimen_index = specimen_index + 1;
        }
        let (best, second) = select_best_two(&self.parents);
        let (best_index, best_fitness) = self.parents[best];
        let (second_index, second_fitness) = self.parents[second];
        let first_parent = Specimen {
            brain: crate::genetic::duplicate_layout(&self.population[best_index].brain.layout),
            fitness: best_fitness,
        };
        let second_parent = Specimen {
            brain: crate::genetic::duplicate_layout(&self.population[second_index].brain.layout),
            fitness: second_fitness,
        };
        proof {
            crate::network::lemma_wf_congruent(
                self.spec_population()[best as int].brain.layout,
                first_parent.brain,
            );
            crate::network::lemma_wf_congruent(
                self.spec_population()[second as int].brain.layout,
                second_parent.brain,
            );
            assert(is_stable_top_two(self.spec_parents(), best as int, second as int));
            self.round@ = Some(
                ScoredRound {
                    population: self.spec_population(),
                    candidates: self.spec_parents(),
                    best: best as int,
                    second: second as int,
                },
            );
            assert(selected_from(self.spec_last_round()->0, first_parent, second_parent));
        }
        Ok([first_parent, second_parent])
    }

    /// One generation: scores the whole population against fresh worlds,
    /// selects the two best specimens, regenerates the population from
    /// them, and returns the two.
    pub(crate) fn simulation_loop(&mut self) -> (r: Result<[Specimen; 2], Error>)
        requires
            old(self).wf(),
            old(self).spec_parents().len() == 0,
            old(self).spec_counter() < usize::MAX,
        ensures
            final(self).wf(),
            final(self).spec_counter() == old(self).spec_counter() + 1,
            final(self).spec_arith() == old(self).spec_arith(),
            final(self).spec_mutation_probability() == old(self).spec_mutation_probability(),
            final(self).spec_population().len() == old(self).spec_population().len(),
            forall|i: int|
                0 <= i < old(self).spec_population().len()
                    ==> (#[trigger] final(self).spec_population()[i]).brain.layout.layers_view()
                    == old(self).spec_population()[i].brain.layout.layers_view(),
            r is Ok ==> final(self).spec_parents().len() == 0,
            r matches Ok(pair) ==> ({
                &&& pair@[0].brain.wf()
                &&& pair@[1].brain.wf()
                &&& pair@[1].brain.layers_view() == pair@[0].brain.layers_view()
                &&& pair@[1].brain.neurons@.len() == pair@[0].brain.neurons@.len()
                &&& final(self).spec_last_round() is Some
                &&& selected_from(final(self).spec_last_round()->0, pair@[0], pair@[1])
                &&& final(self).spec_last_round()->0.population.len()
                    == final(self).spec_population().len()
                &&& forall|i: int|
                    0 <= i < final(self).spec_population().len() ==> (#[trigger] final(self).spec_last_round()->0.population[i]).brain.layout.layers_view() == pair@[0].brain.layers_view()
                &&& forall|i: int|
                    0 <= i < final(self).spec_population().len() ==> (#[trigger] final(self).spec_population()[i]).fitness == 0
                &&& forall|i: int|
                    0 <= i < final(self).spec_population().len() ==> (#[trigger] final(self).spec_population()[i]).brain.layout.layers_view() == pair@[0].brain.layers_view()
                &&& ({
                    let flips = final(self).spec_decider().decided().skip(
                        old(self).spec_decider().decided().len() as int,
                    );
                    let draws = final(self).spec_randomizer().drawn().skip(
                        old(self).spec_randomizer().drawn().len() as int,
                    );
                    let w = concat_inputs(pair@[0].brain.neurons_view()).len() as int
                        + concat_inputs(pair@[1].brain.neurons_view()).len() as int;
                    let half = old(self).spec_population().len() as int / 2;
                    &&& flips.len() == half * w
                    &&& draws.len() == count_true(flips)
                    &&& forall|k: int|
                        0 <= k < half ==> evolved_from(
                            pair@[0].brain,
                            pair@[1].brain,
                            (#[trigger] final(self).spec_population()[2 * k]).brain.layout,
                            final(self).spec_population()[2 * k + 1].brain.layout,
                            flips.subrange(k * w, (k + 1) * w),
                            draws.subrange(
                                count_true(flips.take(k * w)),
                                count_true(flips.take((k + 1) * w)),
                            ),
                        )
                })
            }),
    {
        self.counter = self.counter + 1;
        let best_pops = match self.simulate() {
            Ok(b) => b,
            Err(e) => {
                return Err(e);
            },
        };
        proof {
            let scored = self.spec_last_round()->0;
            assert(0 <= scored.best < scored.population.len());
            assert forall|i: int| 0 <= i < scored.population.len() implies (
            #[trigger] scored.population[i]).brain.layout.layers_view() == best_pops@[0].brain.layers_view() by {
                assert(scored.population[i].brain.layout.layers_view() == self.spec_population()[0].brain.layout.layers_view());
                assert(scored.population[scored.best].brain.layout.layers_view()
                    == self.spec_population()[0].brain.layout.layers_view());
            }
        }
        self.evolve_population(&best_pops);
        Ok(best_pops)
    }

    /// Runs a learning round, seeding the population from the given
    /// specimens — use it to resume training from previously trained
    /// networks. Both seeds must share one topology.
    pub fn run_with_parents(&mut self, finish: Finish, parents: [Specimen; 2]) -> (r: Result<
        [Specimen; 2],
        Error,
    >)
        requires
            old(self).wf(),
            parents@[0].brain.wf(),
            parents@[1].brain.wf(),
            parents@[1].brain.layers_view() == parents@[0].brain.layers_view(),
            parents@[1].brain.neurons@.len() == parents@[0].brain.neurons@.len(),
            finish matches Finish::Occurences(n) ==> old(self).spec_counter() + n <= usize::MAX,
        ensures
            final(self).wf(),
            final(self).spec_arith() == old(self).spec_arith(),
            final(self).spec_mutation_probability() == old(self).spec_mutation_probability(),
            final(self).spec_population().len() == old(self).spec_population().len(),
            final(self).spec_parents().len() == 0,
            r matches Ok(pair) ==> ({
                &&& pair@[0].brain.wf()
                &&& pair@[1].brain.wf()
                &&& pair@[1].brain.layers_view() == pair@[0].brain.layers_view()
                &&& pair@[1].brain.neurons@.len() == pair@[0].brain.neurons@.len()
                &&& final(self).spec_last_round() is Some
                &&& selected_from(final(self).spec_last_round()->0, pair@[0], pair@[1])
                &&& final(self).spec_last_round()->0.population.len()
                    == final(self).spec_population().len()
                &&& forall|i: int|
                    0 <= i < final(self).spec_population().len() ==> (#[trigger] final(self).spec_last_round()->0.population[i]).brain.layout.layers_view()
                        == pair@[0].brain.layers_view()
                &&& forall|i: int|
                    0 <= i < final(self).spec_population().len() ==> (#[trigger] final(self).spec_population()[i]).fitness == 0
                &&& forall|i: int|
                    0 <= i < final(self).spec_population().len() ==> (#[trigger] final(self).spec_population()[i]).brain.layout.layers_view()
                        == pair@[0].brain.layers_view()
                &&& pair@[0].brain.layers_view() == parents@[0].brain.layers_view()
            }),
            match finish {
                Finish::Occurences(n) => {
                    &&& (r is Ok ==> final(self).spec_counter() == old(self).spec_counter() + n
                        && n > 0)
                    &&& (n == 0 ==> r == Result::<[Specimen; 2], Error>::Err(
                        Error::NoSelectionError,
                    ) && final(self).spec_counter() == old(self).spec_counter()
                        && final(self).reseeded_from(parents@[0]))
                },
                Finish::Timeout(_) => r == Result::<[Specimen; 2], Error>::Err(
                    Error::UnsupportedFinishError,
                ) && final(self).spec_counter() == old(self).spec_counter()
                    && final(self).reseeded_from(parents@[0]),
            },
    {
        self.evolve_population(&parents);
        let r = self.run(finish);
        proof {
            assert(self.spec_population().len() >= MINIMUM_POPULATION_SIZE);
            assert(self.spec_population()[0].brain.layout.layers_view() == parents@[0].brain.layers_view());
        }
        r
    }

    /// Runs the learning round: one generation per occurence asked for.
    ///
    /// Returns the two best specimens of the most recent generation, which
    /// can seed further training through `run_with_parents`. A round of
    /// zero generations selects nobody and reports `NoSelectionError`; the
    /// timeout condition is not implemented yet and is refused as
    /// `UnsupportedFinishError`.
    pub fn run(&mut self, finish: Finish) -> (r: Result<[Specimen; 2], Error>)
        requires
            old(self).wf(),
            old(self).spec_parents().len() == 0,
            finish matches Finish::Occurences(n) ==> old(self).spec_counter() + n <= usize::MAX,
        ensures
            final(self).wf(),
            final(self).spec_arith() == old(self).spec_arith(),
            final(self).spec_mutation_probability() == old(self).spec_mutation_probability(),
            final(self).spec_population().len() == old(self).spec_population().len(),
            forall|i: int|
                0 <= i < old(self).spec_population().len()
                    ==> (#[trigger] final(self).spec_population()[i]).brain.layout.layers_view()
                    == old(self).spec_population()[i].brain.layout.layers_view(),
            final(self).spec_parents().len() == 0,
            r matches Ok(pair) ==> ({
                &&& pair@[0].brain.wf()
                &&& pair@[1].brain.wf()
                &&& pair@[1].brain.layers_view() == pair@[0].brain.layers_view()
                &&& pair@[1].brain.neurons@.len() == pair@[0].brain.neurons@.len()
                &&& final(self).spec_last_round() is Some
                &&& selected_from(final(self).spec_last_round()->0, pair@[0], pair@[1])
                &&& final(self).spec_last_round()->0.population.len()
                    == final(self).spec_population().len()
                &&& forall|i: int|
                    0 <= i < final(self).spec_population().len() ==> (#[trigger] final(self).spec_last_round()->0.population[i]).brain.layout.layers_view()
                        == pair@[0].brain.layers_view()
                &&& forall|i: int|
                    0 <= i < final(self).spec_population().len() ==> (#[trigger] final(self).spec_population()[i]).fitness == 0
                &&& forall|i: int|
                    0 <= i < final(self).spec_population().len() ==> (#[trigger] final(self).spec_population()[i]).brain.layout.layers_view()
                        == pair@[0].brain.layers_view()
            }),
            match finish {
                Finish::Occurences(n) => {
                    &&& (r is Ok ==> final(self).spec_counter() == old(self).spec_counter() + n
                        && n > 0)
                    &&& (n == 0 ==> r == Result::<[Specimen; 2], Error>::Err(
                        Error::NoSelectionError,
                    ) && *final(self) == *old(self))
                },
                Finish::Timeout(_) => r == Result::<[Specimen; 2], Error>::Err(
                    Error::UnsupportedFinishError,
                ) && *final(self) == *old(self),
            },
    {
        match finish {
            Finish::Occurences(count) => {
                if count == 0 {
                    return Err(Error::NoSelectionError);
                }
                let mut best_parents_so_far: Option<[Specimen; 2]> = None;
                let mut it: usize = 0;
                while it < count
                    invariant
                        it <= count,
                        count > 0,
                        finish == Finish::Occurences(count),
                        self.wf(),
                        self.spec_parents().len() == 0,
                        self.spec_counter() == old(self).spec_counter() + it,
                        old(self).spec_counter() + count <= usize::MAX,
                        self.spec_arith() == old(self).spec_arith(),
                        self.spec_mutation_probability() == old(self).spec_mutation_probability(),
                        self.spec_population().len() == old(self).spec_population().len(),
                        forall|i: int|
                            0 <= i < old(self).spec_population().len()
                                ==> (#[trigger] self.spec_population()[i]).brain.layout.layers_view()
                                == old(self).spec_population()[i].brain.layout.layers_view(),
                        it > 0 <==> best_parents_so_far is Some,
                        best_parents_so_far matches Some(b) ==> ({
                            &&& b@[0].brain.wf()
                            &&& b@[1].brain.wf()
                            &&& b@[1].brain.layers_view() == b@[0].brain.layers_view()
                            &&& b@[1].brain.neurons@.len() == b@[0].brain.neurons@.len()
                            &&& self.spec_last_round() is Some
                            &&& selected_from(self.spec_last_round()->0, b@[0], b@[1])
                            &&& self.spec_last_round()->0.population.len()
                                == self.spec_population().len()
                            &&& forall|i: int|
                                0 <= i < self.spec_population().len() ==> (#[trigger] self.spec_last_round()->0.population[i]).brain.layout.layers_view()
                                    == b@[0].brain.layers_view()
                            &&& forall|i: int|
                                0 <= i < self.spec_population().len() ==> (#[trigger] self.spec_population()[i]).fitness == 0
                            &&& forall|i: int|
                                0 <= i < self.spec_population().len() ==> (#[trigger] self.spec_population()[i]).brain.layout.layers_view()
                                    == b@[0].brain.layers_view()
                        }),
                    decreases count - it,
                {
                    match self.simulation_loop() {
                        Err(message) => {
                            self.parents = Vec::new();
                            return Err(message);
                        },
                        Ok(best_parents) => {
                            best_parents_so_far = Some(best_parents);
                        },
                    }
                    it = it + 1;
                }
                match best_parents_so_far {
                    Some(best_parents) => Ok(best_parents),
                    None => Err(Error::NoSelectionError),
                }
            },
            Finish::Timeout(_) => Err(Error::UnsupportedFinishError),
        }
    }

    /// Reports whether the specimen at `index` stands among the recorded
    /// parent candidates.
    pub fn is_selected_as_parent(&self, index: usize) -> (r: bool)
        ensures
            r == exists|t: int|
                0 <= t < self.spec_parents().len() && (#[trigger] self.spec_parents()[t]).0
                    == index,
    {
        let mut t: usize = 0;
        while t < self.parents.len()
            invariant
                t <= self.parents@.len(),
                forall|q: int| 0 <= q < t ==> (#[trigger] self.parents@[q]).0 != index,
            decreases self.parents@.len() - t,
        {
            let (candidate, _) = self.parents[t];
            if candidate == index {
                proof {
                    assert((self.spec_parents()[t as int]).0 == index);
                }
                return true;
            }
            t = t + 1;
        }
        false
    }
}

} // verus!
