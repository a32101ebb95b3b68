use easyneural::arith::WrappingArithmetic;
use easyneural::layer::LayerBuilder;
use easyneural::network::NetworkBuilder;
use easyneural::neuron_repository::NeuronRepository;
use easyneural::randomizer::CountingRandomizer;
use easyneural::training_ground::Exercise;
use easyneural::Specimen;

use easyneural::error::Error;
#[test]
fn layer_builder_appends_without_relocating() {
    let mut randomizer = CountingRandomizer::new(0, 1);
    let repo = NeuronRepository::new(8);

    let (layer0, repo) = LayerBuilder::new()
        .with_neurons(2)
        .with_neuron_repository(repo)
        .with_previous_layer(None)
        .with_bias(true)
        .build(&mut randomizer, 1);
    let repo = repo.expect("Repository should come back");
    assert_eq!(layer0.neurons, vec![0, 1, 2]);
    assert_eq!(repo.neurons.len(), 3);
    assert!(repo.neurons[2].bias);
    assert_eq!(repo.neurons[2].value, Some(1));

    // The record published for the first neuron, captured right after the
    // first layer was built, is still the same record once the whole
    // topology stands: construction only ever appends.
    let first_record = repo.neurons[0].clone();

    let (layer1, repo) = LayerBuilder::new()
        .with_neurons(3)
        .with_neuron_repository(repo)
        .with_previous_layer(Some(&layer0))
        .with_bias(false)
        .build(&mut randomizer, 1);
    let repo = repo.expect("Repository should come back");
    assert_eq!(layer1.neurons, vec![3, 4, 5]);
    assert_eq!(repo.neurons.len(), 6);
    assert_eq!(repo.neurons[0], first_record);
    assert_eq!(repo.neurons[3].inputs, vec![1, 2, 3]);
    assert_eq!(repo.neurons[4].inputs, vec![4, 5, 6]);
}

#[test]
fn layer_builder_without_repository_builds_nothing() {
    let mut randomizer = CountingRandomizer::new(0, 1);
    let (layer, repo) = LayerBuilder::new().with_neurons(2).build(&mut randomizer, 1);
    assert!(layer.neurons.is_empty());
    assert!(repo.is_none());
}

#[test]
fn neuron_repository_fires_one_neuron() {
    let mut randomizer = CountingRandomizer::new(0, 1);
    let repo = NeuronRepository::new(4);
    let (layer0, repo) = LayerBuilder::new()
        .with_neurons(2)
        .with_neuron_repository(repo)
        .with_previous_layer(None)
        .with_bias(false)
        .build(&mut randomizer, 1);
    let repo = repo.expect("Repository should come back");
    let (layer1, repo) = LayerBuilder::new()
        .with_neurons(1)
        .with_neuron_repository(repo)
        .with_previous_layer(Some(&layer0))
        .with_bias(false)
        .build(&mut randomizer, 1);
    let mut repo = repo.expect("Repository should come back");
    repo.neurons[0].value = Some(10);
    repo.neurons[1].value = Some(20);
    let target = layer1.neurons[0];
    repo.fire(target, &layer0.neurons, &WrappingArithmetic);
    // Weights 1 and 2 against values 10 and 20, identity activation.
    assert_eq!(repo.neurons[target].value, Some(1 * 10 + 2 * 20));
}

#[test]
fn exercise_refires_a_trained_genome() {

    let net = NetworkBuilder::new()
        .with_neurons_per_layer(vec![1, 1])
        .with_randomizer(CountingRandomizer::new(0, 1))
        .with_activator(WrappingArithmetic)
        .build()
        .expect("Unable to build network")
        .0;
    let specimen = Specimen { brain: net.layout, fitness: 0 };
    let exercise = Exercise::new(&specimen);
    // Weights 1 (input) and 2 (bias) on the single output neuron.
    assert_eq!(exercise.get_output(&vec![7], WrappingArithmetic), Ok(1 * 7 + 2 * 1));
    assert_eq!(
        exercise.get_output(&vec![7, 8], WrappingArithmetic),
        Err(Error::ShapeMismatchError)
    );
}
