use vstd::prelude::*;
use crate::arith::Arithmetic;
use crate::network::wsum;
use crate::neuron::Neuron;

verus! {

/// The values the neurons named by `previous` currently hold, in that order.
pub open spec fn previous_values(neurons: Seq<Neuron>, previous: Seq<usize>) -> Seq<u64> {
    Seq::new(previous.len(), |k: int| neurons[previous[k] as int].value->0)
}

/// Recomputes the value of `neurons[index]`: the activation of the weighted
/// sum, over the previous layer, of this neuron's weights times the previous
/// layer's current values. Nothing else changes.
pub(crate) fn fire_neuron<A: Arithmetic>(
    neurons: &mut Vec<Neuron>,
    index: usize,
    previous: &Vec<usize>,
    arith: &A,
)
    requires
        index < old(neurons)@.len(),
        forall|k: int| 0 <= k < previous@.len() ==> #[trigger] previous@[k] < old(neurons)@.len(),
        forall|k: int| 0 <= k < previous@.len() ==> #[trigger] previous@[k] != index,
        forall|k: int|
            0 <= k < previous@.len() ==> old(neurons)@[#[trigger] previous@[k] as int].value is Some,
        old(neurons)@[index as int].inputs@.len() == previous@.len(),
    ensures
        final(neurons)@.len() == old(neurons)@.len(),
        forall|i: int|
            0 <= i < old(neurons)@.len() && i != index ==> final(neurons)@[i] == old(neurons)@[i],
        final(neurons)@[index as int].bias == old(neurons)@[index as int].bias,
        final(neurons)@[index as int].inputs@ == old(neurons)@[index as int].inputs@,
        final(neurons)@[index as int].value == Some(
            arith.spec_activate(
                wsum(
                    *arith,
                    old(neurons)@[index as int].inputs@,
                    previous_values(old(neurons)@, previous@),
                    previous@.len() as int,
                ),
            ),
        ),
{
    let ghost vs = previous_values(neurons@, previous@);
    let ghost ws = neurons@[index as int].inputs@;
    let mut sum = arith.zero();
    let mut k: usize = 0;
    while k < previous.len()
        invariant
            k <= previous@.len(),
            index < neurons@.len(),
            neurons@ == old(neurons)@,
            vs == previous_values(neurons@, previous@),
            ws == neurons@[index as int].inputs@,
            ws.len() == previous@.len(),
            forall|t: int| 0 <= t < previous@.len() ==> #[trigger] previous@[t] < neurons@.len(),
            forall|t: int|
                0 <= t < previous@.len() ==> neurons@[#[trigger] previous@[t] as int].value is Some,
            sum == wsum(*arith, ws, vs, k as int),
        decreases previous@.len() - k,
    {
        let pi = previous[k];
        let w = neurons[index].inputs[k];
        let pv = neurons[pi].value.unwrap();
        proof {
            assert(vs[k as int] == pv);
        }
        sum = arith.mul_add(sum, w, pv);
        k = k + 1;
    }
    let act = arith.activate(sum);
    let mut replacement = neurons[index].duplicate();
    replacement.value = Some(act);
    neurons.set(index, replacement);
}

/// The arena the topology builder fills: every neuron of the network in
/// creation order. Construction only appends to it, so an index published
/// for a neuron stays valid — and keeps naming the same record — for the
/// lifetime of the genome.
#[derive(Clone, Debug, PartialEq)]
pub struct NeuronRepository {
    /// The neuron records, in creation order.
    pub neurons: Vec<Neuron>,
}

impl NeuronRepository {
    /// An empty arena, sized for about `neuron_count` records.
    pub fn new(neuron_count: usize) -> (r: NeuronRepository)
        ensures
            r.neurons@.len() == 0,
    {
        NeuronRepository { neurons: Vec::with_capacity(neuron_count) }
    }

    /// Recomputes the value of the neuron at `index` from the previous
    /// layer's current values; see [`fire_neuron`] for the exact statement.
    pub fn fire<A: Arithmetic>(&mut self, index: usize, previous: &Vec<usize>, arith: &A)
        requires
            index < old(self).neurons@.len(),
            forall|k: int|
                0 <= k < previous@.len() ==> #[trigger] previous@[k] < old(self).neurons@.len(),
            forall|k: int| 0 <= k < previous@.len() ==> #[trigger] previous@[k] != index,
            forall|k: int|
                0 <= k < previous@.len() ==> old(self).neurons@[#[trigger] previous@[k] as int].value
                    is Some,
            old(self).neurons@[index as int].inputs@.len() == previous@.len(),
        ensures
            final(self).neurons@.len() == old(self).neurons@.len(),
            forall|i: int|
                0 <= i < old(self).neurons@.len() && i != index ==> final(self).neurons@[i] == old(
                    self,
                ).neurons@[i],
            final(self).neurons@[index as int].bias == old(self).neurons@[index as int].bias,
            final(self).neurons@[index as int].inputs@ == old(self).neurons@[index as int].inputs@,
            final(self).neurons@[index as int].value == Some(
                arith.spec_activate(
                    wsum(
                        *arith,
                        old(self).neurons@[index as int].inputs@,
                        previous_values(old(self).neurons@, previous@),
                        previous@.len() as int,
                    ),
                ),
            ),
    {
        fire_neuron(&mut self.neurons, index, previous, arith);
    }
}

} // verus!
