use easyneural::arith::Arithmetic;
use easyneural::genetic::MutationDecider;
use easyneural::network::NetworkLayout;
use easyneural::randomizer::RandomProvider;
use easyneural::simulating_world::SimulatingWorld;
use easyneural::simulation::{Finish, Simulation, SimulationStatus};
use easyneural::specimen::SpecimenStatus;
use easyneural::MINIMUM_POPULATION_SIZE;
use rand::Rng;
use rand_distr::Distribution;

use easyneural::simulation::select_best_two;
use easyneural::error::Error;
use easyneural::arith::WrappingArithmetic;
use easyneural::genetic::PatternDecider;
use easyneural::randomizer::CountingRandomizer;
struct NormalRandomizer {
    sampler: rand_distr::Normal<f64>,
}

impl NormalRandomizer {
    fn new() -> NormalRandomizer {
        NormalRandomizer {
            sampler: rand_distr::Normal::new(0.0, 1.0).expect("Unable to create randomizer"),
        }
    }
}

impl RandomProvider for NormalRandomizer {
    fn get_number(&mut self) -> u64 {
        self.sampler.sample(&mut rand::thread_rng()).to_bits()
    }
}

struct UniformDecider {
    rng: rand::rngs::ThreadRng,
}

impl MutationDecider for UniformDecider {
    fn should_mutate(&mut self, probability: u64) -> bool {
        self.rng.gen::<f64>() < f64::from_bits(probability)
    }
}

#[derive(Clone, Copy)]
struct IdentityArithmetic;

impl Arithmetic for IdentityArithmetic {
    fn zero(&self) -> u64 {
        0.0f64.to_bits()
    }
    fn one(&self) -> u64 {
        1.0f64.to_bits()
    }
    fn mul_add(&self, acc: u64, weight: u64, value: u64) -> u64 {
        (f64::from_bits(acc) + f64::from_bits(weight) * f64::from_bits(value)).to_bits()
    }
    fn activate(&self, x: u64) -> u64 {
        x
    }
}

struct TestWorld;

impl SimulatingWorld for TestWorld {
    fn new() -> TestWorld {
        TestWorld {}
    }
    fn tick(&mut self, _: &Vec<u64>) -> SimulationStatus {
        SimulationStatus {
            specimen_status: SpecimenStatus::DEAD((-1.0f64).to_bits()),
            current_tick: 0,
        }
    }
    fn get_world_state(&self) -> Vec<u64> {
        vec![1.0f64.to_bits(), (-1.0f64).to_bits()]
    }
}

type TestSimulation = Simulation<TestWorld, IdentityArithmetic, NormalRandomizer, UniformDecider>;

fn prepare_simulation(population_size: usize) -> Option<TestSimulation> {
    let simulation = TestSimulation::new(
        population_size,
        &vec![2, 3, 4, 5, 1],
        NormalRandomizer::new(),
        UniformDecider { rng: rand::thread_rng() },
        IdentityArithmetic,
        None,
    );
    if let Ok(mut simulation) = simulation {
        simulation
            .population
            .iter_mut()
            .enumerate()
            .for_each(|(index, pop)| pop.fitness = ((index * 2) as f64).to_bits());
        return Some(simulation);
    }
    None
}

fn get_all_neuron_inputs_sum(network: &NetworkLayout) -> f64 {
    network
        .neurons
        .iter()
        .map(|neuron| &neuron.inputs)
        .flatten()
        .map(|bits| f64::from_bits(*bits))
        .sum::<f64>()
}

#[test]
fn simulation_check_population_size() {
    let simulation =
        prepare_simulation(MINIMUM_POPULATION_SIZE).expect("Unable to create simulation");
    assert_eq!(simulation.population.len(), MINIMUM_POPULATION_SIZE);
}

#[test]
fn simulation_population_too_small() {
    let simulation = prepare_simulation(MINIMUM_POPULATION_SIZE - 1);
    assert!(simulation.is_none());
}

#[test]
fn simulation_population_must_be_even() {
    let simulation = prepare_simulation(MINIMUM_POPULATION_SIZE + 1);
    assert!(simulation.is_none());
}

#[test]
fn evolved_parents_are_different() {
    let simulation = prepare_simulation(MINIMUM_POPULATION_SIZE);
    if let Some(mut simulation) = simulation {
        if let Ok(best_specimen) = simulation.run(Finish::Occurences(2)) {
            assert!(
                get_all_neuron_inputs_sum(&best_specimen[0].brain)
                    != get_all_neuron_inputs_sum(&best_specimen[1].brain)
            );
        } else {
            assert!(false);
        }
    } else {
        assert!(false);
    }
}

#[test]
fn selecting_parents_just_two() {
    const TEST_POPULATION_SIZE: usize = 6;
    let mut simulation =
        prepare_simulation(TEST_POPULATION_SIZE).expect("Unable to create simulation");
    simulation.add_parent_candidate(1);
    simulation.add_parent_candidate(2);
    assert!(simulation.is_selected_as_parent(1));
    assert!(simulation.is_selected_as_parent(2));
}

#[test]
fn selecting_parents_pick_best() {
    const TEST_POPULATION_SIZE: usize = 120;
    let mut simulation =
        prepare_simulation(TEST_POPULATION_SIZE).expect("Unable to create simulation");
    for i in 0..TEST_POPULATION_SIZE {
        simulation.add_parent_candidate(i);
    }
    assert!(simulation.is_selected_as_parent(TEST_POPULATION_SIZE - 1));
    assert!(simulation.is_selected_as_parent(TEST_POPULATION_SIZE - 2));
}

#[test]
fn selecting_parents_pick_best_reversed() {
    const TEST_POPULATION_SIZE: usize = 10;
    let mut simulation =
        prepare_simulation(TEST_POPULATION_SIZE).expect("Unable to create simulation");
    for i in (0..TEST_POPULATION_SIZE).rev() {
        simulation.add_parent_candidate(i);
    }

    assert!(simulation.is_selected_as_parent(TEST_POPULATION_SIZE - 1));
    assert!(simulation.is_selected_as_parent(TEST_POPULATION_SIZE - 2));
}

#[test]
fn selecting_parents_overwrite_one() {
    const TEST_POPULATION_SIZE: usize = 10;
    const TEST_MIDDLE_POP: usize = TEST_POPULATION_SIZE / 2;
    let mut simulation =
        prepare_simulation(TEST_POPULATION_SIZE).expect("Unable to create simulation");
    for _ in 0..10 {
        simulation.add_parent_candidate(TEST_MIDDLE_POP);
    }
    simulation.add_parent_candidate(TEST_POPULATION_SIZE - 1);

    assert!(simulation.is_selected_as_parent(TEST_POPULATION_SIZE - 1));
    assert!(simulation.is_selected_as_parent(TEST_MIDDLE_POP));
}

#[test]
fn selecting_parents_overwrite_two() {
    const TEST_POPULATION_SIZE: usize = 10;
    const TEST_MIDDLE_POP: usize = TEST_POPULATION_SIZE / 2;
    let mut simulation =
        prepare_simulation(TEST_POPULATION_SIZE).expect("Unable to create simulation");
    for _ in 0..10 {
        simulation.add_parent_candidate(TEST_MIDDLE_POP);
    }
    simulation.add_parent_candidate(TEST_POPULATION_SIZE - 1);
    simulation.add_parent_candidate(TEST_POPULATION_SIZE - 2);

    assert!(simulation.is_selected_as_parent(TEST_POPULATION_SIZE - 1));
    assert!(simulation.is_selected_as_parent(TEST_POPULATION_SIZE - 2));
}

#[test]
fn selecting_parents_no_single_predominance() {
    const TEST_POPULATION_SIZE: usize = 10;
    const TEST_MIDDLE_POP: usize = TEST_POPULATION_SIZE / 2;
    const TEST_BEST_POP: usize = TEST_POPULATION_SIZE - 1;
    let mut simulation =
        prepare_simulation(TEST_POPULATION_SIZE).expect("Unable to create simulation");
    simulation.add_parent_candidate(TEST_MIDDLE_POP);
    simulation.add_parent_candidate(TEST_MIDDLE_POP);
    simulation.add_parent_candidate(TEST_BEST_POP);
    simulation.add_parent_candidate(TEST_BEST_POP);
    assert!(simulation.is_selected_as_parent(TEST_BEST_POP));
    assert!(simulation.is_selected_as_parent(TEST_MIDDLE_POP));
}

#[test]
fn select_best_two_ignores_insertion_order() {

    // The same candidates in two different discovery orders: the selected
    // pair of candidates is the same.
    let forward: Vec<(usize, u64)> = vec![
        (0, 4.0f64.to_bits()),
        (1, (-2.5f64).to_bits()),
        (2, 9.0f64.to_bits()),
        (3, 7.5f64.to_bits()),
    ];
    let mut backward = forward.clone();
    backward.reverse();

    let (b1, s1) = select_best_two(&forward);
    let (b2, s2) = select_best_two(&backward);
    assert_eq!(forward[b1], backward[b2]);
    assert_eq!(forward[s1], backward[s2]);
    assert_eq!(forward[b1].0, 2);
    assert_eq!(forward[s1].0, 3);
}

#[test]
fn select_best_two_orders_negative_fitness() {

    let cand: Vec<(usize, u64)> = vec![
        (0, (-1.0f64).to_bits()),
        (1, (-3.0f64).to_bits()),
        (2, (-0.5f64).to_bits()),
    ];
    let (b, s) = select_best_two(&cand);
    assert_eq!(cand[b].0, 2);
    assert_eq!(cand[s].0, 0);
}

#[test]
fn unsupported_finish_condition() {

    let mut simulation =
        prepare_simulation(MINIMUM_POPULATION_SIZE).expect("Unable to create simulation");
    assert_eq!(simulation.run(Finish::Timeout(1000)).unwrap_err(), Error::UnsupportedFinishError);
    assert_eq!(simulation.run(Finish::Occurences(0)).unwrap_err(), Error::NoSelectionError);
}

#[test]
fn generations_counted_and_children_identical_only_without_mutation() {

    struct DeadOnFirstTick;
    impl SimulatingWorld for DeadOnFirstTick {
        fn new() -> DeadOnFirstTick {
            DeadOnFirstTick {}
        }
        fn tick(&mut self, output: &Vec<u64>) -> SimulationStatus {
            SimulationStatus {
                specimen_status: SpecimenStatus::DEAD(output[0]),
                current_tick: 0,
            }
        }
        fn get_world_state(&self) -> Vec<u64> {
            vec![3, 5]
        }
    }

    const GENERATIONS: usize = 4;

    // Without mutation the population becomes pairs of clones of the two
    // children of the best parents: slots of even index hold bit-for-bit
    // identical genomes.
    let mut session = Simulation::<DeadOnFirstTick, _, _, _>::new(
        6,
        &vec![2, 2, 1],
        CountingRandomizer::new(0, 1),
        PatternDecider::new(Vec::new()),
        WrappingArithmetic,
        None,
    )
    .expect("Unable to create simulation");
    session.run(Finish::Occurences(GENERATIONS)).expect("Error running session");
    assert_eq!(session.get_number_of_iterations(), GENERATIONS);
    assert_eq!(session.population[0].brain.layout, session.population[2].brain.layout);
    assert_eq!(session.population[1].brain.layout, session.population[3].brain.layout);

    // With mutation on every weight the slots differ.
    let mut session = Simulation::<DeadOnFirstTick, _, _, _>::new(
        6,
        &vec![2, 2, 1],
        CountingRandomizer::new(0, 1),
        PatternDecider::new(vec![true]),
        WrappingArithmetic,
        None,
    )
    .expect("Unable to create simulation");
    session.run(Finish::Occurences(GENERATIONS)).expect("Error running session");
    assert_eq!(session.get_number_of_iterations(), GENERATIONS);
    assert_ne!(session.population[0].brain.layout, session.population[2].brain.layout);
}

#[test]
fn world_with_wrong_state_width_reports_shape_mismatch() {
    // The topology expects two inputs; this world hands over one.
    struct NarrowWorld;
    impl SimulatingWorld for NarrowWorld {
        fn new() -> NarrowWorld {
            NarrowWorld {}
        }
        fn tick(&mut self, _: &Vec<u64>) -> SimulationStatus {
            SimulationStatus { specimen_status: SpecimenStatus::DEAD(0), current_tick: 0 }
        }
        fn get_world_state(&self) -> Vec<u64> {
            vec![7]
        }
    }

    let mut session = Simulation::<NarrowWorld, _, _, _>::new(
        4,
        &vec![2, 2, 1],
        CountingRandomizer::new(0, 1),
        PatternDecider::new(Vec::new()),
        WrappingArithmetic,
        None,
    )
    .expect("Unable to create simulation");
    assert_eq!(
        session.run(Finish::Occurences(1)).unwrap_err(),
        Error::ShapeMismatchError
    );
    // The session stays usable: a second round reports the same failure
    // instead of tripping over leftovers of the first.
    assert_eq!(
        session.run(Finish::Occurences(1)).unwrap_err(),
        Error::ShapeMismatchError
    );
}
