use easyneural::genetic::{crossover, mutate, MutationDecider, PatternDecider};
use easyneural::network::NetworkLayout;
use easyneural::neuron::Neuron;
use easyneural::randomizer::RandomProvider;
use rand::Rng;

struct TestRandomizer {
    current: f64,
    step: f64,
}

impl RandomProvider for TestRandomizer {
    fn get_number(&mut self) -> u64 {
        self.current += self.step;
        self.current.to_bits()
    }
}

/// A decision source backed by the process-wide uniform generator: decides
/// to mutate with the probability carried in the scalar.
struct UniformDecider {
    rng: rand::rngs::ThreadRng,
}

impl MutationDecider for UniformDecider {
    fn should_mutate(&mut self, probability: u64) -> bool {
        self.rng.gen::<f64>() < f64::from_bits(probability)
    }
}

fn create_test_pops<R: RandomProvider>(
    neurons: usize,
    inputs: usize,
    randomizer: &mut R,
) -> (NetworkLayout, NetworkLayout) {
    let make = |randomizer: &mut R| NetworkLayout {
        neurons: (0..neurons)
            .map(|_| Neuron::new(false, inputs, randomizer, 1.0f64.to_bits()))
            .collect(),
        layers: vec![],
    };
    (make(randomizer), make(randomizer))
}

fn relative_eq(a: f64, b: f64) -> bool {
    (a - b).abs() <= 1e-12 * a.abs().max(b.abs()).max(1.0)
}

#[test]
fn test_crossover() {
    let mut randomizer = TestRandomizer { current: 0.0, step: 1.0 };

    const NEURON_COUNT: usize = 5;
    const INPUT_COUNT: usize = 1;
    let (pop1, pop2) = create_test_pops(NEURON_COUNT, INPUT_COUNT, &mut randomizer);

    // Before crossover:
    //      1.0 - 2.0 - 3.0 - 4.0 -  5.0
    //      6.0 - 7.0 - 8.0 - 9.0 - 10.0
    //
    // After crossover:
    //      6.0 - 7.0 - 3.0 - 4.0 -  5.0
    //      1.0 - 2.0 - 8.0 - 9.0 - 10.0
    let [offspring_1, offspring_2] = crossover(&[pop1, pop2]);
    offspring_1
        .neurons
        .iter()
        .zip([6.0, 7.0, 3.0, 4.0, 5.0].iter())
        .for_each(|(a, b)| assert!(relative_eq(f64::from_bits(a.inputs[0]), *b)));
    offspring_2
        .neurons
        .iter()
        .zip([1.0, 2.0, 8.0, 9.0, 10.0].iter())
        .for_each(|(a, b)| assert!(relative_eq(f64::from_bits(a.inputs[0]), *b)));
}

#[test]
fn test_mutate() {
    struct FixedRandomizer {
        current: f64,
    }
    impl RandomProvider for FixedRandomizer {
        fn get_number(&mut self) -> u64 {
            self.current.to_bits()
        }
    }
    let mut randomizer = TestRandomizer { current: 100.0, step: 0.0 };

    const MUTATED_VALUE: f64 = -100.0;
    let mut mutation_randomizer = FixedRandomizer { current: MUTATED_VALUE };

    const NEURON_COUNT: usize = 50;
    const INPUT_COUNT: usize = 150;
    const TOTAL_INPUTS: usize = NEURON_COUNT * INPUT_COUNT * 2;
    const MUTATION_PROBABILITY: f64 = 0.5;
    let (pop1, pop2) = create_test_pops(NEURON_COUNT, INPUT_COUNT, &mut randomizer);

    let mut decider = UniformDecider { rng: rand::thread_rng() };
    let (first, second) = mutate(
        [pop1, pop2],
        &mut mutation_randomizer,
        &mut decider,
        MUTATION_PROBABILITY.to_bits(),
    );
    let mut counter = 0;
    for pop in [&first, &second] {
        for neuron in &pop.neurons {
            counter += neuron
                .inputs
                .iter()
                .filter(|input| relative_eq(f64::from_bits(**input), MUTATED_VALUE))
                .count();
        }
    }

    let percentage_mutated: f64 = counter as f64 / TOTAL_INPUTS as f64;
    const TOLERANCE: f64 = 0.10;
    assert!((percentage_mutated - MUTATION_PROBABILITY).abs() <= TOLERANCE);
}

#[test]
fn mutate_with_pattern_decider_is_exact() {
    // The pattern replaces every third weight; replacements count up from
    // a thousand. Each genome has one neuron of three weights.
    let mut randomizer = TestRandomizer { current: 0.0, step: 1.0 };
    let (pop1, pop2) = create_test_pops(1, 3, &mut randomizer);
    let mut replacements = easyneural::randomizer::CountingRandomizer::new(1000, 1);
    let mut decider = PatternDecider::new(vec![true, false, false]);
    let (first, second) = mutate([pop1, pop2], &mut replacements, &mut decider, 0);
    assert_eq!(first.neurons[0].inputs[0], 1001);
    assert_eq!(first.neurons[0].inputs[1], 2.0f64.to_bits());
    assert_eq!(first.neurons[0].inputs[2], 3.0f64.to_bits());
    assert_eq!(second.neurons[0].inputs[0], 1002);
    assert_eq!(second.neurons[0].inputs[1], 5.0f64.to_bits());
    assert_eq!(second.neurons[0].inputs[2], 6.0f64.to_bits());
}

#[test]
fn mutate_with_zero_pattern_changes_nothing() {
    let mut randomizer = TestRandomizer { current: 0.0, step: 1.0 };
    let (pop1, pop2) = create_test_pops(2, 2, &mut randomizer);
    let before = (pop1.clone(), pop2.clone());
    let mut replacements = easyneural::randomizer::CountingRandomizer::new(1000, 1);
    let mut decider = PatternDecider::new(Vec::new());
    let (first, second) = mutate([pop1, pop2], &mut replacements, &mut decider, 0);
    assert_eq!(first, before.0);
    assert_eq!(second, before.1);
}
