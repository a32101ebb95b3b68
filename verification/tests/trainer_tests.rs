use easyneural::arith::{Arithmetic, WrappingArithmetic};
use easyneural::randomizer::CountingRandomizer;
use easyneural::trainer::{Specimen, Trainer};
use easyneural::world::World;
use easyneural::MINIMUM_POPULATION_SIZE;

struct TestWorld;

impl World<WrappingArithmetic> for TestWorld {
    fn new() -> TestWorld {
        TestWorld {}
    }
    fn release_specimen(&mut self, specimen: &mut Specimen<WrappingArithmetic>) {
        specimen.fitness += 1;
    }
}

#[test]
fn trainer_check_population_size() {
    let trainer = Trainer::<TestWorld, WrappingArithmetic>::new(
        MINIMUM_POPULATION_SIZE,
        &vec![1, 1],
        CountingRandomizer::new(0, 1),
        WrappingArithmetic,
    );
    assert!(trainer.is_ok());
    let trainer = trainer.unwrap();
    assert_eq!(trainer.population.len(), MINIMUM_POPULATION_SIZE);
}

#[test]
fn trainer_population_too_small() {
    let trainer = Trainer::<TestWorld, WrappingArithmetic>::new(
        MINIMUM_POPULATION_SIZE - 1,
        &vec![1, 1],
        CountingRandomizer::new(0, 1),
        WrappingArithmetic,
    );
    assert!(trainer.is_err());
}

#[test]
fn trainer_releases_every_specimen() {
    let mut trainer = Trainer::<TestWorld, WrappingArithmetic>::new(
        MINIMUM_POPULATION_SIZE,
        &vec![2, 1],
        CountingRandomizer::new(0, 1),
        WrappingArithmetic,
    )
    .expect("Unable to create trainer");
    trainer.run_simulation();
    assert!(trainer.population.iter().all(|s| s.fitness == 1));
}

#[test]
fn arithmetic_helpers_are_exact() {
    let a = WrappingArithmetic;
    assert_eq!(a.zero(), 0);
    assert_eq!(a.one(), 1);
    assert_eq!(a.mul_add(5, 3, 4), 17);
    assert_eq!(a.mul_add(u64::MAX, 1, 1), 0);
    assert_eq!(a.activate(42), 42);
}
