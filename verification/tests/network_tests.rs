use easyneural::arith::Arithmetic;
use easyneural::network::NetworkBuilder;
use easyneural::randomizer::RandomProvider;

use easyneural::arith::WrappingArithmetic;
use easyneural::randomizer::CountingRandomizer;
use easyneural::error::Error;
use easyneural::network::{Network, NetworkLayout};
struct TestRandomizer {
    current: f64,
    step: f64,
}

impl RandomProvider for TestRandomizer {
    fn get_number(&mut self) -> u64 {
        self.current += self.step;
        self.current.to_bits()
    }
}

#[derive(Clone, Copy)]
struct SigmoidArithmetic;

impl Arithmetic for SigmoidArithmetic {
    fn zero(&self) -> u64 {
        0.0f64.to_bits()
    }
    fn one(&self) -> u64 {
        1.0f64.to_bits()
    }
    fn mul_add(&self, acc: u64, weight: u64, value: u64) -> u64 {
        (f64::from_bits(acc) + f64::from_bits(weight) * f64::from_bits(value)).to_bits()
    }
    fn activate(&self, x: u64) -> u64 {
        let x = f64::from_bits(x);
        (1.0 / (1.0 + (-x).exp())).to_bits()
    }
}

#[derive(Clone, Copy)]
struct IdentityArithmetic;

impl Arithmetic for IdentityArithmetic {
    fn zero(&self) -> u64 {
        0.0f64.to_bits()
    }
    fn one(&self) -> u64 {
        1.0f64.to_bits()
    }
    fn mul_add(&self, acc: u64, weight: u64, value: u64) -> u64 {
        (f64::from_bits(acc) + f64::from_bits(weight) * f64::from_bits(value)).to_bits()
    }
    fn activate(&self, x: u64) -> u64 {
        x
    }
}

fn relative_eq(a: f64, b: f64) -> bool {
    let diff = (a - b).abs();
    let largest = a.abs().max(b.abs());
    diff <= 1e-12 * largest.max(1.0)
}

const BIAS_VALUE: f64 = 1.0;

#[test]
fn structure() {
    let randomizer = TestRandomizer { current: 0.0, step: 0.25 };
    let neurons_per_layer = vec![20, 30, 10];
    let net = NetworkBuilder::new()
        .with_neurons_per_layer(neurons_per_layer.clone())
        .with_randomizer(randomizer)
        .with_activator(IdentityArithmetic)
        .build()
        .expect("Unable to build network")
        .0;

    let mut expected_neurons: Vec<usize> = neurons_per_layer.iter().map(|x| x + 1).collect();
    if let Some(last) = expected_neurons.last_mut() {
        *last -= 1;
    }

    assert_eq!(net.layout.layers.len(), neurons_per_layer.len());

    net.layout
        .layers
        .iter()
        .zip(expected_neurons.iter())
        .for_each(|(x, y)| assert_eq!(x.len(), *y));

    for layer_id in 0..net.layout.layers.len() - 1 {
        let layer = &net.layout.layers[layer_id];
        let last_neuron_id = *layer.last().expect("Layer empty");
        let last_neuron = &net.layout.neurons[last_neuron_id];
        assert!(relative_eq(
            f64::from_bits(last_neuron.value.expect("Neuron w/o value")),
            BIAS_VALUE
        ));
    }
}

#[test]
fn calculations_with_default_activation_function() {
    let sigmoid = |x: f64| 1.0 / (1.0 + (-x).exp());

    let randomizer = TestRandomizer { current: -1.3, step: 0.05 };
    let neurons_per_layer = vec![3, 2, 2, 1];
    let mut net = NetworkBuilder::new()
        .with_neurons_per_layer(neurons_per_layer)
        .with_randomizer(randomizer)
        .with_activator(SigmoidArithmetic)
        .build()
        .expect("Unable to build network")
        .0;

    const INPUT_1: f64 = -0.0023;
    const INPUT_2: f64 = 0.00881;
    const INPUT_3: f64 = -1.00003;

    net.fire(&vec![INPUT_1.to_bits(), INPUT_2.to_bits(), INPUT_3.to_bits()])
        .expect("Unable to fire network");

    let value_of = |net: &easyneural::network::Network<SigmoidArithmetic>, i: usize| {
        f64::from_bits(net.layout.neurons[i].value.unwrap())
    };

    assert!(relative_eq(value_of(&net, 3), BIAS_VALUE));
    assert!(relative_eq(value_of(&net, 6), BIAS_VALUE));
    assert!(relative_eq(value_of(&net, 9), BIAS_VALUE));

    let neuron_4_expected_value =
        sigmoid(-1.25 * INPUT_1 + -1.2 * INPUT_2 + -1.15 * INPUT_3 + -1.1 * 1.0);
    assert!(relative_eq(value_of(&net, 4), neuron_4_expected_value));

    let neuron_5_expected_value =
        sigmoid(-1.05 * INPUT_1 + -1.0 * INPUT_2 + -0.95 * INPUT_3 + -0.9 * 1.0);
    assert!(relative_eq(value_of(&net, 5), neuron_5_expected_value));

    let neuron_7_expected_value = sigmoid(
        -0.85 * value_of(&net, 4) + -0.8 * value_of(&net, 5) + -0.75 * 1.0,
    );
    assert!(relative_eq(value_of(&net, 7), neuron_7_expected_value));

    let neuron_8_expected_value = sigmoid(
        -0.7 * value_of(&net, 4) + -0.65 * value_of(&net, 5) + -0.6 * 1.0,
    );
    assert!(relative_eq(value_of(&net, 8), neuron_8_expected_value));

    let neuron_10_expected_value = sigmoid(
        -0.55 * value_of(&net, 7) + -0.5 * value_of(&net, 8) + -0.45 * 1.0,
    );
    assert!(relative_eq(value_of(&net, 10), neuron_10_expected_value));
}

#[test]
fn calculations_with_custom_activator() {
    let randomizer = TestRandomizer { current: 0.0, step: 1.5 };
    let neurons_per_layer = vec![2, 3, 1];
    let mut net = NetworkBuilder::new()
        .with_neurons_per_layer(neurons_per_layer)
        .with_randomizer(randomizer)
        .with_activator(IdentityArithmetic)
        .build()
        .expect("Unable to build network")
        .0;

    const INPUT_1: f64 = 3.7;
    const INPUT_2: f64 = -2.8;

    net.fire(&vec![INPUT_1.to_bits(), INPUT_2.to_bits()]).expect("Unable to fire network");

    let value_of = |net: &easyneural::network::Network<IdentityArithmetic>, i: usize| {
        f64::from_bits(net.layout.neurons[i].value.unwrap())
    };

    assert!(relative_eq(value_of(&net, 2), BIAS_VALUE));
    assert!(relative_eq(value_of(&net, 6), BIAS_VALUE));
    assert!(relative_eq(value_of(&net, 3), 1.5 * INPUT_1 + 3.0 * INPUT_2 + 4.5 * 1.0));
    assert!(relative_eq(value_of(&net, 4), 6.0 * INPUT_1 + 7.5 * INPUT_2 + 9.0 * 1.0));
    assert!(relative_eq(value_of(&net, 5), 10.5 * INPUT_1 + 12.0 * INPUT_2 + 13.5 * 1.0));
    assert!(relative_eq(
        value_of(&net, 7),
        (1.5 * INPUT_1 + 3.0 * INPUT_2 + 4.5 * 1.0) * 15.0
            + (6.0 * INPUT_1 + 7.5 * INPUT_2 + 9.0 * 1.0) * 16.5
            + (10.5 * INPUT_1 + 12.0 * INPUT_2 + 13.5 * 1.0) * 18.0
            + 19.5
    ));
}

#[test]
fn integer_engine_exact_values() {

    // Weights are drawn 1, 2, 3 for the single output neuron of a [2, 1]
    // topology; the bias neuron contributes its fixed value of one.
    let randomizer = CountingRandomizer::new(0, 1);
    let mut net = NetworkBuilder::new()
        .with_neurons_per_layer(vec![2, 1])
        .with_randomizer(randomizer)
        .with_activator(WrappingArithmetic)
        .build()
        .expect("Unable to build network")
        .0;
    assert_eq!(net.layout.layers.len(), 2);
    assert_eq!(net.layout.layers[0].len(), 3);
    assert_eq!(net.layout.layers[1].len(), 1);
    assert_eq!(net.layout.neurons[3].inputs, vec![1, 2, 3]);

    net.fire(&vec![10, 20]).expect("Unable to fire network");
    let out = net.get_output().expect("Unable to read output");
    assert_eq!(out, vec![1 * 10 + 2 * 20 + 3 * 1]);
}

#[test]
fn fire_error_cases() {

    let mut empty = Network {
        layout: NetworkLayout { neurons: Vec::new(), layers: Vec::new() },
        arith: WrappingArithmetic,
    };
    assert_eq!(empty.fire(&vec![1]), Err(Error::EmptyNetworkError));
    assert_eq!(empty.get_output().unwrap_err(), Error::EmptyNetworkError);

    let randomizer = CountingRandomizer::new(0, 1);
    let mut net = NetworkBuilder::new()
        .with_neurons_per_layer(vec![2, 1])
        .with_randomizer(randomizer)
        .with_activator(WrappingArithmetic)
        .build()
        .expect("Unable to build network")
        .0;
    assert_eq!(net.fire(&vec![1, 2, 3]), Err(Error::ShapeMismatchError));
    assert_eq!(net.get_output().unwrap_err(), Error::UncomputedValueError);
}

#[test]
fn builder_requires_configuration() {

    let r = NetworkBuilder::<WrappingArithmetic, CountingRandomizer>::new()
        .with_randomizer(CountingRandomizer::new(0, 1))
        .with_activator(WrappingArithmetic)
        .build();
    assert!(matches!(r, Err(Error::ConfigurationError)));

    let r = NetworkBuilder::<WrappingArithmetic, CountingRandomizer>::new()
        .with_neurons_per_layer(vec![5])
        .with_randomizer(CountingRandomizer::new(0, 1))
        .with_activator(WrappingArithmetic)
        .build();
    assert!(matches!(r, Err(Error::ConfigurationError)));
}

#[test]
fn builder_without_bias() {

    let net = NetworkBuilder::new()
        .with_neurons_per_layer(vec![2, 3, 1])
        .with_randomizer(CountingRandomizer::new(0, 1))
        .with_activator(WrappingArithmetic)
        .with_bias(false)
        .build()
        .expect("Unable to build network")
        .0;
    assert_eq!(net.layout.layers[0].len(), 2);
    assert_eq!(net.layout.layers[1].len(), 3);
    assert_eq!(net.layout.layers[2].len(), 1);
    assert!(net.layout.neurons.iter().all(|n| !n.bias));
}
