use easyneural::arith::Arithmetic;
use easyneural::genetic::MutationDecider;
use easyneural::randomizer::RandomProvider;
use easyneural::simulating_world::SimulatingWorld;
use easyneural::simulation::{Finish, Simulation, SimulationStatus};
use easyneural::specimen::SpecimenStatus;
use rand::Rng;
use rand_distr::Distribution;

struct MyWorld {
    tick: usize,
    liveliness: isize,
}

impl MyWorld {
    fn get_specimen_score(&self, foo_data: f64) -> f64 {
        self.tick as f64 / foo_data
    }
}

impl SimulatingWorld for MyWorld {
    fn new() -> MyWorld {
        MyWorld { tick: 0, liveliness: 0 }
    }

    fn tick(&mut self, input: &Vec<u64>) -> SimulationStatus {
        self.tick += 1;

        let first = f64::from_bits(input[0]);
        self.liveliness = self.liveliness + if first < 0.5 { -3 } else { 1 };
        let alive_status = match self.liveliness {
            -5..=5 => SpecimenStatus::ALIVE(self.get_specimen_score(first).to_bits()),
            _ => SpecimenStatus::DEAD(self.get_specimen_score(first).to_bits()),
        };

        SimulationStatus { specimen_status: alive_status, current_tick: self.tick }
    }

    fn get_world_state(&self) -> Vec<u64> {
        vec![
            self.get_specimen_score(-21.0).to_bits(),
            self.get_specimen_score(21.0).to_bits(),
        ]
    }
}

struct NormalRandomizer {
    sampler: rand_distr::Normal<f64>,
}

impl RandomProvider for NormalRandomizer {
    fn get_number(&mut self) -> u64 {
        self.sampler.sample(&mut rand::thread_rng()).to_bits()
    }
}

struct UniformDecider {
    rng: rand::rngs::ThreadRng,
}

impl MutationDecider for UniformDecider {
    fn should_mutate(&mut self, probability: u64) -> bool {
        self.rng.gen::<f64>() < f64::from_bits(probability)
    }
}

#[derive(Clone, Copy)]
struct SigmoidArithmetic;

impl Arithmetic for SigmoidArithmetic {
    fn zero(&self) -> u64 {
        0.0f64.to_bits()
    }
    fn one(&self) -> u64 {
        1.0f64.to_bits()
    }
    fn mul_add(&self, acc: u64, weight: u64, value: u64) -> u64 {
        (f64::from_bits(acc) + f64::from_bits(weight) * f64::from_bits(value)).to_bits()
    }
    fn activate(&self, x: u64) -> u64 {
        let x = f64::from_bits(x);
        (1.0 / (1.0 + (-x).exp())).to_bits()
    }
}

#[test]
fn test_run_training_session() {
    const POPULATION_SIZE: usize = 10;
    const SIMULATION_ROUNDS: usize = 10;

    let neurons_per_layer = vec![2, 4, 5, 1];
    let randomizer = NormalRandomizer {
        sampler: rand_distr::Normal::new(0.0, 1.0).expect("Unable to create randomizer"),
    };

    let session = Simulation::<MyWorld, _, _, _>::new(
        POPULATION_SIZE,
        &neurons_per_layer,
        randomizer,
        UniformDecider { rng: rand::thread_rng() },
        SigmoidArithmetic,
        None,
    );
    if let Ok(mut session) = session {
        if let Ok(_) = session.run(Finish::Occurences(SIMULATION_ROUNDS)) {
            assert_eq!(session.get_number_of_iterations(), SIMULATION_ROUNDS);
        } else {
            assert!(false, "Error running session");
        }
    } else {
        assert!(false, "Error running session");
    }
}
