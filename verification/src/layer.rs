use vstd::prelude::*;
use crate::neuron::{
    concat_inputs, lemma_concat_inputs_push, lemma_views_push_prefix, lemma_views_push_suffix,
    neuron_views, Neuron, NeuronView,
};
use crate::neuron_repository::NeuronRepository;
use crate::randomizer::RandomProvider;

verus! {

/// One layer of the network: the indices of its neurons in the arena, in
/// creation order.
#[derive(Clone, Debug, PartialEq)]
pub struct Layer {
    /// Arena indices of this layer's neurons.
    pub neurons: Vec<usize>,
}

impl Layer {
    /// An empty layer.
    pub fn new() -> (r: Layer)
        ensures
            r.neurons@.len() == 0,
    {
        Layer { neurons: Vec::new() }
    }
}

/// What a freshly built run of neuron records looks like: `n` ordinary
/// neurons, each wired to every neuron of the previous layer and still
/// without a value, followed — when bias is enabled — by one bias neuron
/// holding its fixed value and no weights.
pub open spec fn fresh_layer_records(
    recs: Seq<NeuronView>,
    n: int,
    prev_len: int,
    bias: bool,
    bias_value: u64,
) -> bool {
    &&& recs.len() == n + if bias {
        1int
    } else {
        0int
    }
    &&& forall|t: int|
        0 <= t < n ==> (#[trigger] recs[t]).bias == false && recs[t].value is None
            && recs[t].inputs.len() == prev_len
    &&& bias ==> recs[n].bias == true && recs[n].value == Some(bias_value) && recs[n].inputs.len()
        == 0
}

/// Builds one layer of the network into the shared neuron arena.
///
/// The builder is configured by value, one setting per call, and `build`
/// consumes it. It appends the layer's neurons to the supplied repository —
/// never touching the records already there — and hands the repository back
/// together with the list of the indices it used.
pub struct LayerBuilder {
    number_of_neurons: Option<usize>,
    neuron_repository: Option<NeuronRepository>,
    previous_layer: Option<Layer>,
    bias: bool,
}

impl LayerBuilder {
    /// The configured neuron count, if any.
    pub closed spec fn spec_number_of_neurons(&self) -> Option<usize> {
        self.number_of_neurons
    }

    /// The arena handed over for building, if any.
    pub closed spec fn spec_repository(&self) -> Option<NeuronRepository> {
        self.neuron_repository
    }

    /// The copy of the previous layer, if any.
    pub closed spec fn spec_previous_layer(&self) -> Option<Layer> {
        self.previous_layer
    }

    /// Whether a bias neuron will be appended.
    pub closed spec fn spec_bias(&self) -> bool {
        self.bias
    }

    /// How many weights each ordinary neuron of this layer receives: one per
    /// neuron of the previous layer.
    pub open spec fn spec_prev_len(&self) -> int {
        if self.spec_previous_layer() is Some {
            self.spec_previous_layer()->0.neurons@.len() as int
        } else {
            0
        }
    }

    /// A builder with nothing configured yet.
    pub fn new() -> (r: LayerBuilder)
        ensures
            r.spec_number_of_neurons() is None,
            r.spec_repository() is None,
            r.spec_previous_layer() is None,
            r.spec_bias() == false,
    {
        LayerBuilder {
            number_of_neurons: None,
            neuron_repository: None,
            previous_layer: None,
            bias: false,
        }
    }

    /// Chooses whether the layer ends in a bias neuron.
    pub fn with_bias(self, bias: bool) -> (r: LayerBuilder)
        ensures
            r.spec_bias() == bias,
            r.spec_number_of_neurons() == self.spec_number_of_neurons(),
            r.spec_repository() == self.spec_repository(),
            r.spec_previous_layer() == self.spec_previous_layer(),
    {
        LayerBuilder { bias, ..self }
    }

    /// Sets how many ordinary neurons the layer holds.
    pub fn with_neurons(self, number_of_neurons: usize) -> (r: LayerBuilder)
        ensures
            r.spec_number_of_neurons() == Some(number_of_neurons),
            r.spec_bias() == self.spec_bias(),
            r.spec_repository() == self.spec_repository(),
            r.spec_previous_layer() == self.spec_previous_layer(),
    {
        LayerBuilder { number_of_neurons: Some(number_of_neurons), ..self }
    }

    /// Hands the builder the arena to append to; `build` returns it.
    pub fn with_neuron_repository(self, neuron_repository: NeuronRepository) -> (r: LayerBuilder)
        ensures
            r.spec_repository() == Some(neuron_repository),
            r.spec_bias() == self.spec_bias(),
            r.spec_number_of_neurons() == self.spec_number_of_neurons(),
            r.spec_previous_layer() == self.spec_previous_layer(),
    {
        LayerBuilder { neuron_repository: Some(neuron_repository), ..self }
    }

    /// Records the previous layer, whose size fixes this layer's weight
    /// counts; `None` marks the input layer, whose neurons take no weights.
    pub fn with_previous_layer(self, layer: Option<&Layer>) -> (r: LayerBuilder)
        ensures
            match (r.spec_previous_layer(), layer) {
                (Some(mine), Some(given)) => mine.neurons@ == given.neurons@,
                (None, None) => true,
                _ => false,
            },
            r.spec_bias() == self.spec_bias(),
            r.spec_number_of_neurons() == self.spec_number_of_neurons(),
            r.spec_repository() == self.spec_repository(),
    {
        let previous_layer = match layer {
            Some(given) => Some(Layer { neurons: clone_indices(&given.neurons) }),
            None => None,
        };
        LayerBuilder { previous_layer, ..self }
    }

    /// Builds the layer: appends its neurons to the arena, drawing every
    /// weight from `randomizer` in creation order, and returns the layer's
    /// index list beside the grown arena. Left unconfigured — no neuron
    /// count or no arena — it builds nothing and returns an empty layer.
    pub fn build<R: RandomProvider>(self, randomizer: &mut R, bias_value: u64) -> (r: (
        Layer,
        Option<NeuronRepository>,
    ))
        ensures
            (self.spec_number_of_neurons() is Some && self.spec_repository() is Some) ==> ({
                let n = self.spec_number_of_neurons()->0 as int;
                let rep = self.spec_repository()->0;
                let base = rep.neurons@.len() as int;
                let total = n + if self.spec_bias() {
                    1int
                } else {
                    0int
                };
                &&& r.1 is Some
                &&& r.1->0.neurons@.len() == base + total
                &&& neuron_views(r.1->0.neurons@).subrange(0, base) == neuron_views(rep.neurons@)
                &&& fresh_layer_records(
                    neuron_views(r.1->0.neurons@).subrange(base, base + total),
                    n,
                    self.spec_prev_len(),
                    self.spec_bias(),
                    bias_value,
                )
                &&& final(randomizer).drawn() == old(randomizer).drawn() + concat_inputs(
                    neuron_views(r.1->0.neurons@).subrange(base, base + total),
                )
                &&& r.0.neurons@.len() == total
                &&& forall|t: int| 0 <= t < total ==> #[trigger] r.0.neurons@[t] as int == base + t
            }),
            !(self.spec_number_of_neurons() is Some && self.spec_repository() is Some) ==> ({
                &&& r.0.neurons@.len() == 0
                &&& r.1 == self.spec_repository()
                &&& final(randomizer).drawn() == old(randomizer).drawn()
            }),
    {
        let mut layer = Layer::new();
        let prev_len: usize = match &self.previous_layer {
            Some(p) => p.neurons.len(),
            None => 0,
        };
        match (self.number_of_neurons, self.neuron_repository) {
            (Some(n), Some(mut rep)) => {
                let ghost base = rep.neurons@.len() as int;
                let ghost pre_views = neuron_views(rep.neurons@);
                let ghost pre_drawn = randomizer.drawn();
                let mut i: usize = 0;
                while i < n
                    invariant
                        i <= n,
                        0 <= base,
                        rep.neurons@.len() == base + i,
                        neuron_views(rep.neurons@).subrange(0, base) == pre_views,
                        fresh_layer_records(
                            neuron_views(rep.neurons@).subrange(base, base + i),
                            i as int,
                            prev_len as int,
                            false,
                            bias_value,
                        ),
                        randomizer.drawn() == pre_drawn + concat_inputs(
                            neuron_views(rep.neurons@).subrange(base, base + i),
                        ),
                        layer.neurons@.len() == i,
                        forall|t: int| 0 <= t < i ==> #[trigger] layer.neurons@[t] as int == base + t,
                    decreases n - i,
                {
                    let ghost old_neurons = rep.neurons@;
                    let nn = Neuron::new(false, prev_len, randomizer, bias_value);
                    rep.neurons.push(nn);
                    layer.neurons.push(rep.neurons.len() - 1);
                    i = i + 1;
                    proof {
                        assert(rep.neurons@ == old_neurons.push(nn));
                        lemma_views_push_prefix(old_neurons, nn, base);
                        lemma_views_push_suffix(old_neurons, nn, base);
                        lemma_concat_inputs_push(
                            neuron_views(old_neurons).subrange(base, base + i - 1),
                            nn@,
                        );
                    }
                }
                if self.bias {
                    let ghost old_neurons = rep.neurons@;
                    let nn = Neuron::new(true, 0, randomizer, bias_value);
                    rep.neurons.push(nn);
                    layer.neurons.push(rep.neurons.len() - 1);
                    proof {
                        assert(rep.neurons@ == old_neurons.push(nn));
                        lemma_views_push_prefix(old_neurons, nn, base);
                        lemma_views_push_suffix(old_neurons, nn, base);
                        lemma_concat_inputs_push(
                            neuron_views(old_neurons).subrange(base, base + n as int),
                            nn@,
                        );
                        assert(nn@.inputs.len() == 0);
                        assert(concat_inputs(neuron_views(old_neurons).subrange(base, base + n as int))
                            + nn@.inputs =~= concat_inputs(
                            neuron_views(old_neurons).subrange(base, base + n as int),
                        ));
                    }
                }
                (layer, Some(rep))
            },
            (_, repository) => (layer, repository),
        }
    }
}

/// Copies an index list verbatim.
pub(crate) fn clone_indices(v: &Vec<usize>) -> (r: Vec<usize>)
    ensures
        r@ == v@,
{
    let r = v.clone();
    proof {
        assert forall|i: int| 0 <= i < v@.len() implies r@[i] == v@[i] by {
            assert(cloned::<usize>(v@[i], r@[i]));
        }
        assert(r@ =~= v@);
    }
    r
}

} // verus!
