use vstd::prelude::*;
use crate::arith::Arithmetic;
use crate::error::Error;
use crate::network::{built_layout, Network, NetworkBuilder};
use crate::randomizer::RandomProvider;
use crate::world::World;
use crate::MINIMUM_POPULATION_SIZE;

verus! {

/// Status of a specimen under training.
pub enum SpecimenStatus {
    /// The specimen is still alive.
    ALIVE,
    /// The specimen is dead.
    DEAD,
}

/// One member of a trainer's population: a live network and a signed
/// fitness tally the world may adjust as it exercises the specimen.
pub struct Specimen<A: Arithmetic> {
    /// The network this specimen runs.
    pub brain: Network<A>,
    /// The fitness tally of this specimen.
    pub fitness: i64,
}

/// A plain training pen: a population of specimens and one world that
/// exercises them, specimen by specimen, without selection or breeding.
pub struct Trainer<T, A: Arithmetic> {
    /// The specimens under training.
    pub population: Vec<Specimen<A>>,
    /// The world they are exercised in.
    pub world: T,
}

impl<T: World<A>, A: Arithmetic + Copy> Trainer<T, A> {
    /// Creates a trainer with a freshly built population.
    ///
    /// Succeeds exactly when the population size is at least
    /// [`MINIMUM_POPULATION_SIZE`] and the topology has at least two
    /// layers; each specimen then carries an independently built genome and
    /// a fitness tally of zero.
    pub fn new<R: RandomProvider>(
        population_size: usize,
        neurons_per_layer: &Vec<usize>,
        randomizer: R,
        arith: A,
    ) -> (r: Result<Trainer<T, A>, Error>)
        ensures
            r is Ok <==> (population_size >= MINIMUM_POPULATION_SIZE && neurons_per_layer@.len()
                >= 2),
            r is Err ==> r == Result::<Trainer<T, A>, Error>::Err(Error::ConfigurationError),
            r is Ok ==> ({
                let t = r->Ok_0;
                &&& t.population@.len() == population_size
                &&& forall|i: int|
                    0 <= i < population_size ==> (#[trigger] t.population@[i]).fitness == 0
                &&& forall|i: int|
                    0 <= i < population_size ==> built_layout(
                        (#[trigger] t.population@[i]).brain.layout,
                        neurons_per_layer@,
                        true,
                        arith.spec_one(),
                    )
            }),
    {
        if population_size < MINIMUM_POPULATION_SIZE {
            return Err(Error::ConfigurationError);
        }
        if neurons_per_layer.len() < 2 {
            return Err(Error::ConfigurationError);
        }
        let mut randomizer = randomizer;
        let mut population: Vec<Specimen<A>> = Vec::new();
        let mut i: usize = 0;
        while i < population_size
            invariant
                i <= population_size,
                population@.len() == i,
                neurons_per_layer@.len() >= 2,
                forall|t: int| 0 <= t < i ==> (#[trigger] population@[t]).fitness == 0,
                forall|t: int|
                    0 <= t < i ==> built_layout(
                        (#[trigger] population@[t]).brain.layout,
                        neurons_per_layer@,
                        true,
                        arith.spec_one(),
                    ),
            decreases population_size - i,
        {
            let builder = NetworkBuilder::<A, R>::new().with_neurons_per_layer(
                crate::layer::clone_indices(neurons_per_layer),
            ).with_randomizer(randomizer).with_activator(arith);
            match builder.build() {
                Ok((net, randomizer_back)) => {
                    randomizer = randomizer_back;
                    population.push(Specimen { brain: net, fitness: 0i64 });
                },
                Err(_) => {
                    proof {
                        assert(false);
                    }
                    return Err(Error::ConfigurationError);
                },
            }
            i = i + 1;
        }
        Ok(Trainer { population, world: T::new() })
    }

    /// Releases every specimen into the world, in population order.
    pub fn run_simulation(&mut self)
        ensures
            final(self).population@.len() == old(self).population@.len(),
    {
        let len = self.population.len();
        let mut i: usize = 0;
        while i < len
            invariant
                i <= len,
                self.population@.len() == len,
            decreases len - i,
        {
            let mut specimen = self.population.remove(i);
            self.world.release_specimen(&mut specimen);
            self.population.insert(i, specimen);
            i = i + 1;
        }
    }
}

} // verus!
