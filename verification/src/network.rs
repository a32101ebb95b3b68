use vstd::prelude::*;
use crate::arith::Arithmetic;
use crate::error::Error;
use crate::layer::{clone_indices, Layer, LayerBuilder};
use crate::neuron::{
    concat_inputs, lemma_concat_inputs_append, neuron_views, Neuron, NeuronView,
};
use crate::neuron_repository::{fire_neuron, previous_values, NeuronRepository};
use crate::randomizer::RandomProvider;

verus! {

/// The genome: a flat, append-only arena of neuron records plus the layer
/// membership lists, each an ordered run of indices into the arena.
///
/// Cross-references between layers are positional indices, never addresses,
/// so the records published while the topology grows are never relocated:
/// construction only appends to `neurons`. A well-formed layout (see
/// [`NetworkLayout::wf`]) assigns the arena to the layers in one contiguous
/// sweep: layer `l` owns the indices `layer_base(l) .. layer_base(l + 1)`.
#[derive(Clone, Debug, PartialEq)]
pub struct NetworkLayout {
    /// Every neuron of the network, in creation order.
    pub neurons: Vec<Neuron>,
    /// For each layer, the indices of its neurons, in creation order.
    pub layers: Vec<Vec<usize>>,
}

impl NetworkLayout {
    /// The neuron records as a sequence of their mathematical images.
    pub open spec fn neurons_view(&self) -> Seq<NeuronView> {
        self.neurons@.map_values(|n: Neuron| n@)
    }

    /// The layer membership lists as sequences.
    pub open spec fn layers_view(&self) -> Seq<Seq<usize>> {
        self.layers@.map_values(|l: Vec<usize>| l@)
    }

    /// Index of the first neuron of layer `l`: the total size of the layers
    /// before it.
    pub open spec fn layer_base(&self, l: int) -> int {
        rows_base(self.layers_view(), l)
    }

    /// Whether layer `l` ends in a bias neuron.
    pub open spec fn has_bias(&self, l: int) -> bool {
        let row = self.layers_view()[l];
        row.len() > 0 && self.neurons_view()[row[row.len() - 1] as int].bias
    }

    /// How many leading neurons of layer `l` the engine computes when it
    /// fires: all of them but a trailing bias neuron, which keeps its fixed
    /// value.
    pub open spec fn computed_count(&self, l: int) -> int {
        self.layers_view()[l].len() - (if self.has_bias(l) { 1int } else { 0int })
    }

    /// How many input values a `fire` call must supply: one per non-bias
    /// neuron of the first layer.
    pub open spec fn input_width(&self) -> int {
        self.computed_count(0)
    }

    /// The genome invariant.
    ///
    /// The layer lists partition the arena in creation order — the entry for
    /// position `j` of layer `l` is exactly `layer_base(l) + j`, and the
    /// layers together cover the whole arena. A bias neuron can stand only at
    /// the end of its layer, always carries a value and never carries
    /// weights; an ordinary neuron of a later layer carries exactly one
    /// weight per neuron of the layer before it, and first-layer neurons
    /// carry none.
    pub open spec fn wf(&self) -> bool {
        let ls = self.layers_view();
        let ns = self.neurons_view();
        &&& forall|l: int, j: int|
            0 <= l < ls.len() && 0 <= j < ls[l].len() ==> #[trigger] ls[l][j] == self.layer_base(
                l,
            ) + j
        &&& self.layer_base(ls.len() as int) == ns.len()
        &&& forall|l: int, j: int|
            0 <= l < ls.len() && 0 <= j && j + 1 < ls[l].len() ==> !ns[#[trigger] ls[l][j] as int].bias
        &&& forall|i: int|
            0 <= i < ns.len() && ns[i].bias ==> (#[trigger] ns[i].value) is Some && ns[i].inputs.len()
                == 0
        &&& forall|l: int, j: int|
            1 <= l < ls.len() && 0 <= j < ls[l].len() && !ns[ls[l][j] as int].bias
                ==> (#[trigger] ns[ls[l][j] as int].inputs).len() == ls[l - 1].len()
        &&& ls.len() > 0 ==> forall|j: int|
            0 <= j < ls[0].len() ==> (#[trigger] ns[ls[0][j] as int].inputs).len() == 0
    }

    /// Every layer entry of a well-formed layout indexes into the arena.
    pub proof fn lemma_wf_indices(&self, l: int, j: int)
        requires
            self.wf(),
            0 <= l < self.layers_view().len(),
            0 <= j < self.layers_view()[l].len(),
        ensures
            self.layer_base(l) + j < self.neurons_view().len(),
            0 <= self.layer_base(l),
            self.layers_view()[l][j] == self.layer_base(l) + j,
    {
        self.lemma_layer_base_bounds(l);
        assert(self.layer_base(l) + self.layers_view()[l].len() == self.layer_base(l + 1));
        self.lemma_layer_base_mono(l + 1, self.layers_view().len() as int);
    }

    /// `layer_base` never goes negative.
    pub proof fn lemma_layer_base_bounds(&self, l: int)
        ensures
            0 <= self.layer_base(l),
        decreases l,
    {
        if l > 0 {
            self.lemma_layer_base_bounds(l - 1);
        }
    }

    /// Every entry of row `l` is its base plus its position, and in range.
    pub proof fn lemma_row_facts(&self, l: int)
        requires
            self.wf(),
            0 <= l < self.layers_view().len(),
        ensures
            forall|j: int|
                0 <= j < self.layers_view()[l].len() ==> #[trigger] self.layers_view()[l][j] as int
                    == self.layer_base(l) + j,
            forall|j: int|
                0 <= j < self.layers_view()[l].len() ==> #[trigger] self.layers_view()[l][j]
                    < self.neurons_view().len(),
            0 <= self.layer_base(l),
    {
        assert forall|j: int| 0 <= j < self.layers_view()[l].len() implies #[trigger] self
            .layers_view()[l][j] as int == self.layer_base(l) + j && self.layers_view()[l][j]
            < self.neurons_view().len() by {
            self.lemma_wf_indices(l, j);
        }
        self.lemma_layer_base_bounds(l);
    }

    /// Rows of two different layers never share an entry.
    pub proof fn lemma_rows_disjoint(&self, l1: int, l2: int)
        requires
            self.wf(),
            0 <= l1 < l2 < self.layers_view().len(),
        ensures
            forall|j: int, k: int|
                0 <= j < self.layers_view()[l1].len() && 0 <= k < self.layers_view()[l2].len()
                    ==> #[trigger] self.layers_view()[l1][j] != #[trigger] self.layers_view()[l2][k],
    {
        assert forall|j: int, k: int|
            0 <= j < self.layers_view()[l1].len() && 0 <= k < self.layers_view()[l2].len() implies #[trigger] self
            .layers_view()[l1][j] != #[trigger] self.layers_view()[l2][k] by {
            self.lemma_wf_indices(l1, j);
            self.lemma_wf_indices(l2, k);
            self.lemma_layer_base_mono(l1 + 1, l2);
        }
    }

    /// Every arena index of a well-formed layout belongs to some layer, at
    /// the position its index dictates.
    pub proof fn lemma_position_of(&self, i: int)
        requires
            self.wf(),
            0 <= i < self.neurons_view().len(),
        ensures
            exists|l: int, j: int|
                0 <= l < self.layers_view().len() && 0 <= j < self.layers_view()[l].len()
                    && #[trigger] self.layers_view()[l][j] as int == i,
    {
        self.lemma_position_of_rec(i, 0);
    }

    proof fn lemma_position_of_rec(&self, i: int, l: int)
        requires
            self.wf(),
            0 <= l < self.layers_view().len(),
            self.layer_base(l) <= i < self.neurons_view().len(),
        ensures
            exists|l2: int, j: int|
                0 <= l2 < self.layers_view().len() && 0 <= j < self.layers_view()[l2].len()
                    && #[trigger] self.layers_view()[l2][j] as int == i,
        decreases self.layers_view().len() - l,
    {
        let ls = self.layers_view();
        if i < self.layer_base(l) + ls[l].len() {
            let j = i - self.layer_base(l);
            self.lemma_wf_indices(l, j);
            assert(ls[l][j] as int == i);
        } else {
            assert(self.layer_base(l + 1) <= i);
            if l + 1 == ls.len() {
                assert(self.layer_base(l + 1) == self.neurons_view().len());
                assert(false);
            }
            self.lemma_position_of_rec(i, l + 1);
        }
    }

    /// `layer_base` grows with the layer index.
    pub proof fn lemma_layer_base_mono(&self, l1: int, l2: int)
        requires
            0 <= l1 <= l2,
        ensures
            self.layer_base(l1) <= self.layer_base(l2),
        decreases l2 - l1,
    {
        if l1 < l2 {
            self.lemma_layer_base_mono(l1 + 1, l2);
        }
    }
}

/// The total size of the first `l` rows: where row `l` starts in the arena.
pub open spec fn rows_base(rows: Seq<Seq<usize>>, l: int) -> int
    decreases l,
{
    if l <= 0 {
        0
    } else {
        rows_base(rows, l - 1) + rows[l - 1].len()
    }
}

/// Every index below the total size of the rows falls inside exactly one
/// row, at the position its index dictates: returns that row and position.
pub proof fn lemma_rows_position(rows: Seq<Seq<usize>>, i: int) -> (r: (int, int))
    requires
        0 <= i < rows_base(rows, rows.len() as int),
    ensures
        0 <= r.0 < rows.len(),
        0 <= r.1 < rows[r.0].len(),
        rows_base(rows, r.0) + r.1 == i,
{
    lemma_rows_position_rec(rows, i, 0)
}

proof fn lemma_rows_position_rec(rows: Seq<Seq<usize>>, i: int, l: int) -> (r: (int, int))
    requires
        0 <= l < rows.len(),
        rows_base(rows, l) <= i < rows_base(rows, rows.len() as int),
    ensures
        0 <= r.0 < rows.len(),
        0 <= r.1 < rows[r.0].len(),
        rows_base(rows, r.0) + r.1 == i,
    decreases rows.len() - l,
{
    if i < rows_base(rows, l) + rows[l].len() {
        (l, i - rows_base(rows, l))
    } else {
        assert(rows_base(rows, l + 1) <= i);
        if l + 1 == rows.len() {
            assert(false);
        }
        lemma_rows_position_rec(rows, i, l + 1)
    }
}

/// Row bases never go negative.
pub proof fn lemma_rows_base_nonneg(rows: Seq<Seq<usize>>, l: int)
    ensures
        0 <= rows_base(rows, l),
    decreases l,
{
    if l > 0 {
        lemma_rows_base_nonneg(rows, l - 1);
    }
}

/// Row bases grow with the row index.
pub proof fn lemma_rows_base_mono(rows: Seq<Seq<usize>>, l1: int, l2: int)
    requires
        0 <= l1 <= l2,
    ensures
        rows_base(rows, l1) <= rows_base(rows, l2),
    decreases l2 - l1,
{
    if l1 < l2 {
        lemma_rows_base_mono(rows, l1 + 1, l2);
    }
}

/// Appending a row does not move the rows already placed.
pub proof fn lemma_rows_base_push(rows: Seq<Seq<usize>>, row: Seq<usize>, l: int)
    requires
        0 <= l <= rows.len(),
    ensures
        rows_base(rows.push(row), l) == rows_base(rows, l),
    decreases l,
{
    if l > 0 {
        lemma_rows_base_push(rows, row, l - 1);
        assert(rows.push(row)[l - 1] == rows[l - 1]);
    }
}

/// The weighted sum of the first `k` contributions: fold of `mul_add` over
/// the weight/value pairs, starting from the implementation's zero.
pub open spec fn wsum<A: Arithmetic>(arith: A, ws: Seq<u64>, vs: Seq<u64>, k: int) -> u64
    decreases k,
{
    if k <= 0 {
        arith.spec_zero()
    } else {
        arith.spec_mul_add(wsum(arith, ws, vs, k - 1), ws[k - 1], vs[k - 1])
    }
}

/// The values the neurons of layer `l` hold after a `fire` with the given
/// inputs, in layer order.
///
/// First-layer non-bias neurons take the inputs positionally and a trailing
/// bias neuron keeps its stored value. Each computed neuron of a later layer
/// holds the activation of the weighted sum of the previous layer's values;
/// a trailing bias neuron again keeps its stored value.
pub open spec fn layer_values<A: Arithmetic>(
    layout: NetworkLayout,
    arith: A,
    inputs: Seq<u64>,
    l: int,
) -> Seq<u64>
    decreases l,
{
    let ls = layout.layers_view();
    let ns = layout.neurons_view();
    if l <= 0 {
        Seq::new(
            ls[0].len(),
            |j: int|
                if j < layout.input_width() {
                    inputs[j]
                } else {
                    ns[ls[0][j] as int].value->0
                },
        )
    } else {
        let prev = layer_values(layout, arith, inputs, l - 1);
        Seq::new(
            ls[l].len(),
            |j: int|
                if j < layout.computed_count(l) {
                    arith.spec_activate(
                        wsum(arith, ns[ls[l][j] as int].inputs, prev, ls[l - 1].len() as int),
                    )
                } else {
                    ns[ls[l][j] as int].value->0
                },
        )
    }
}

/// Two layouts share their whole structure: the same layer lists and, per
/// neuron, the same bias marker and the same weights. Only the cached values
/// may differ.
pub open spec fn same_structure(a: NetworkLayout, b: NetworkLayout) -> bool {
    &&& a.layers_view() == b.layers_view()
    &&& a.neurons_view().len() == b.neurons_view().len()
    &&& forall|i: int|
        0 <= i < a.neurons_view().len() ==> (#[trigger] b.neurons_view()[i]).bias
            == a.neurons_view()[i].bias && b.neurons_view()[i].inputs == a.neurons_view()[i].inputs
}

/// The layout `b` holds exactly the values a fire of `a` with `inputs`
/// computes: every neuron of every layer caches its `layer_values` entry.
pub open spec fn fired<A: Arithmetic>(
    a: NetworkLayout,
    b: NetworkLayout,
    arith: A,
    inputs: Seq<u64>,
) -> bool {
    forall|l: int, j: int|
        0 <= l < a.layers_view().len() && 0 <= j < a.layers_view()[l].len()
            ==> b.neurons_view()[#[trigger] a.layers_view()[l][j] as int].value == Some(
            layer_values(a, arith, inputs, l)[j],
        )
}

/// A genome paired with the scalar arithmetic that evaluates it.
pub struct Network<A: Arithmetic> {
    /// The genome this network evaluates.
    pub layout: NetworkLayout,
    /// The scalar arithmetic and activation used when firing.
    pub arith: A,
}

impl<A: Arithmetic> Network<A> {
    /// Writes the given input values into the leading neurons of a layer,
    /// one per value, leaving every other neuron untouched.
    fn set_layer_values(layer: &Vec<usize>, input_values: &Vec<u64>, neurons: &mut Vec<Neuron>)
        requires
            input_values@.len() <= layer@.len(),
            forall|j: int|
                0 <= j < input_values@.len() ==> #[trigger] layer@[j] < old(neurons)@.len(),
            forall|j1: int, j2: int|
                0 <= j1 < j2 < input_values@.len() ==> layer@[j1] != layer@[j2],
        ensures
            final(neurons)@.len() == old(neurons)@.len(),
            forall|i: int|
                0 <= i < old(neurons)@.len() && (forall|j: int|
                    0 <= j < input_values@.len() ==> layer@[j] != i) ==> final(neurons)@[i] == old(
                    neurons,
                )@[i],
            forall|j: int|
                0 <= j < input_values@.len() ==> {
                    let i = #[trigger] layer@[j] as int;
                    &&& final(neurons)@[i].value == Some(input_values@[j])
                    &&& final(neurons)@[i].bias == old(neurons)@[i].bias
                    &&& final(neurons)@[i].inputs@ == old(neurons)@[i].inputs@
                },
    {
        let mut j: usize = 0;
        while j < input_values.len()
            invariant
                j <= input_values@.len(),
                input_values@.len() <= layer@.len(),
                neurons@.len() == old(neurons)@.len(),
                forall|t: int|
                    0 <= t < input_values@.len() ==> #[trigger] layer@[t] < neurons@.len(),
                forall|t1: int, t2: int|
                    0 <= t1 < t2 < input_values@.len() ==> layer@[t1] != layer@[t2],
                forall|i: int|
                    0 <= i < old(neurons)@.len() && (forall|t: int|
                        0 <= t < j ==> layer@[t] != i) ==> neurons@[i] == old(neurons)@[i],
                forall|t: int|
                    0 <= t < j ==> {
                        let i = #[trigger] layer@[t] as int;
                        &&& neurons@[i].value == Some(input_values@[t])
                        &&& neurons@[i].bias == old(neurons)@[i].bias
                        &&& neurons@[i].inputs@ == old(neurons)@[i].inputs@
                    },
            decreases input_values@.len() - j,
        {
            let i = layer[j];
            let mut replacement = neurons[i].duplicate();
            replacement.value = Some(input_values[j]);
            neurons.set(i, replacement);
            j = j + 1;
        }
    }

    /// Recomputes every non-bias neuron of `layer` from the current values
    /// of `prev_layer`, in layer order; a trailing bias neuron keeps its
    /// fixed value.
    fn fire_layer(layer: &Vec<usize>, prev_layer: &Vec<usize>, neurons: &mut Vec<Neuron>, arith: &A)
        requires
            forall|j: int| 0 <= j < layer@.len() ==> #[trigger] layer@[j] < old(neurons)@.len(),
            forall|k: int|
                0 <= k < prev_layer@.len() ==> #[trigger] prev_layer@[k] < old(neurons)@.len(),
            forall|j1: int, j2: int|
                0 <= j1 < j2 < layer@.len() ==> layer@[j1] != layer@[j2],
            forall|j: int, k: int|
                0 <= j < layer@.len() && 0 <= k < prev_layer@.len() ==> #[trigger] layer@[j]
                    != #[trigger] prev_layer@[k],
            forall|j: int|
                0 <= j < layer@.len() && j + 1 < layer@.len() ==> !old(neurons)@[#[trigger] layer@[j] as int].bias,
            forall|j: int|
                0 <= j < row_computed(old(neurons)@, layer@) ==> old(neurons)@[#[trigger] layer@[j] as int].inputs@.len()
                    == prev_layer@.len(),
            forall|k: int|
                0 <= k < prev_layer@.len() ==> old(neurons)@[#[trigger] prev_layer@[k] as int].value
                    is Some,
        ensures
            final(neurons)@.len() == old(neurons)@.len(),
            forall|i: int|
                0 <= i < old(neurons)@.len() && (forall|j: int|
                    0 <= j < row_computed(old(neurons)@, layer@) ==> layer@[j] != i)
                    ==> final(neurons)@[i] == old(neurons)@[i],
            forall|j: int|
                0 <= j < row_computed(old(neurons)@, layer@) ==> {
                    let i = #[trigger] layer@[j] as int;
                    &&& final(neurons)@[i].value == Some(
                        arith.spec_activate(
                            wsum(
                                *arith,
                                old(neurons)@[i].inputs@,
                                previous_values(old(neurons)@, prev_layer@),
                                prev_layer@.len() as int,
                            ),
                        ),
                    )
                    &&& final(neurons)@[i].bias == old(neurons)@[i].bias
                    &&& final(neurons)@[i].inputs@ == old(neurons)@[i].inputs@
                },
    {
        let len = layer.len();
        let count: usize = if len > 0 && neurons[layer[len - 1]].bias {
            len - 1
        } else {
            len
        };
        proof {
            assert(count as int == row_computed(neurons@, layer@));
        }
        let ghost vs = previous_values(neurons@, prev_layer@);
        let mut j: usize = 0;
        while j < count
            invariant
                j <= count,
                count <= layer@.len(),
                count as int == row_computed(old(neurons)@, layer@),
                neurons@.len() == old(neurons)@.len(),
                forall|t: int| 0 <= t < layer@.len() ==> #[trigger] layer@[t] < neurons@.len(),
                forall|k: int|
                    0 <= k < prev_layer@.len() ==> #[trigger] prev_layer@[k] < neurons@.len(),
                forall|t1: int, t2: int|
                    0 <= t1 < t2 < layer@.len() ==> layer@[t1] != layer@[t2],
                forall|t: int, k: int|
                    0 <= t < layer@.len() && 0 <= k < prev_layer@.len() ==> #[trigger] layer@[t]
                        != #[trigger] prev_layer@[k],
                forall|t: int|
                    0 <= t < count ==> old(neurons)@[#[trigger] layer@[t] as int].inputs@.len()
                        == prev_layer@.len(),
                forall|i: int|
                    0 <= i < old(neurons)@.len() && (forall|t: int|
                        0 <= t < j ==> layer@[t] != i) ==> neurons@[i] == old(neurons)@[i],
                forall|t: int|
                    0 <= t < j ==> {
                        let i = #[trigger] layer@[t] as int;
                        &&& neurons@[i].value == Some(
                            arith.spec_activate(
                                wsum(
                                    *arith,
                                    old(neurons)@[i].inputs@,
                                    vs,
                                    prev_layer@.len() as int,
                                ),
                            ),
                        )
                        &&& neurons@[i].bias == old(neurons)@[i].bias
                        &&& neurons@[i].inputs@ == old(neurons)@[i].inputs@
                    },
                vs == previous_values(old(neurons)@, prev_layer@),
                forall|k: int|
                    0 <= k < prev_layer@.len() ==> neurons@[#[trigger] prev_layer@[k] as int]
                        == old(neurons)@[prev_layer@[k] as int],
                forall|k: int|
                    0 <= k < prev_layer@.len() ==> neurons@[#[trigger] prev_layer@[k] as int].value
                        is Some,
            decreases count - j,
        {
            let i = layer[j];
            proof {
                assert(neurons@[i as int].inputs@ == old(neurons)@[i as int].inputs@);
                assert(previous_values(neurons@, prev_layer@) =~= vs);
            }
            fire_neuron(neurons, i, prev_layer, arith);
            j = j + 1;
        }
    }
}

impl<A: Arithmetic> Network<A> {
    /// One full forward pass: the first layer's non-bias neurons take
    /// `input_values` positionally, and every later layer's non-bias neurons
    /// take the activation of the weighted sum of the layer before, layer by
    /// layer. Bias neurons keep their fixed value throughout, yet count as
    /// contributors to the next layer.
    ///
    /// Fails with `EmptyNetworkError` on a network without layers and with
    /// `ShapeMismatchError` when the number of inputs is not the first
    /// layer's non-bias count; either way the network is left untouched.
    pub fn fire(&mut self, input_values: &Vec<u64>) -> (r: Result<(), Error>)
        requires
            old(self).layout.wf(),
        ensures
            final(self).arith == old(self).arith,
            match r {
                Ok(()) => {
                    &&& old(self).layout.layers_view().len() > 0
                    &&& input_values@.len() == old(self).layout.input_width()
                    &&& same_structure(old(self).layout, final(self).layout)
                    &&& fired(
                        old(self).layout,
                        final(self).layout,
                        old(self).arith,
                        input_values@,
                    )
                    &&& final(self).layout.wf()
                },
                Err(Error::EmptyNetworkError) => {
                    &&& old(self).layout.layers_view().len() == 0
                    &&& *final(self) == *old(self)
                },
                Err(Error::ShapeMismatchError) => {
                    &&& old(self).layout.layers_view().len() > 0
                    &&& input_values@.len() != old(self).layout.input_width()
                    &&& *final(self) == *old(self)
                },
                Err(_) => false,
            },
    {
        let layer_count = self.layout.layers.len();
        if layer_count == 0 {
            return Err(Error::EmptyNetworkError);
        }
        let first_len = self.layout.layers[0].len();
        proof {
            self.layout.lemma_row_facts(0);
        }
        let width: usize = if first_len > 0 && self.layout.neurons[self.layout.layers[0][first_len
            - 1]].bias {
            first_len - 1
        } else {
            first_len
        };
        proof {
            assert(width as int == self.layout.input_width());
        }
        if input_values.len() != width {
            return Err(Error::ShapeMismatchError);
        }
        let ghost orig = self.layout;
        let ghost arith = self.arith;
        let ghost inputs = input_values@;
        Self::set_layer_values(&self.layout.layers[0], input_values, &mut self.layout.neurons);
        proof {
            assert(self.layout.layers@ == orig.layers@);
            assert(self.layout.layers_view() == orig.layers_view());
            lemma_structure_indexing(orig, self.layout);
            assert forall|j: int| 0 <= j < orig.layers_view()[0].len() implies self.layout.neurons@[
                #[trigger] orig.layers_view()[0][j] as int
            ].value == Some(layer_values(orig, arith, inputs, 0)[j]) by {
                orig.lemma_row_facts(0);
                if j >= width {
                    assert(orig.has_bias(0));
                    assert(j == orig.layers_view()[0].len() - 1);
                    assert(orig.neurons_view()[orig.layers_view()[0][j] as int].bias);
                }
            }
            assert forall|l2: int, j: int|
                1 <= l2 < orig.layers_view().len() && 0 <= j < orig.layers_view()[l2].len() implies self
                .layout.neurons@[#[trigger] orig.layers_view()[l2][j] as int] == orig.neurons@[
                orig.layers_view()[l2][j] as int
            ] by {
                orig.lemma_row_facts(l2);
                orig.lemma_rows_disjoint(0, l2);
            }
        }
        let mut l: usize = 1;
        while l < layer_count
            invariant
                1 <= l <= layer_count,
                orig.wf(),
                layer_count == orig.layers_view().len(),
                inputs.len() == orig.input_width(),
                self.arith == arith,
                self.layout.layers@ == orig.layers@,
                self.layout.neurons@.len() == orig.neurons@.len(),
                forall|i: int|
                    0 <= i < orig.neurons@.len() ==> (#[trigger] self.layout.neurons@[i]).bias
                        == orig.neurons@[i].bias && self.layout.neurons@[i].inputs@
                        == orig.neurons@[i].inputs@,
                forall|l2: int, j: int|
                    0 <= l2 < l && 0 <= j < orig.layers_view()[l2].len() ==> self.layout.neurons@[
                        #[trigger] orig.layers_view()[l2][j] as int
                    ].value == Some(layer_values(orig, arith, inputs, l2)[j]),
                forall|l2: int, j: int|
                    l <= l2 < layer_count && 0 <= j < orig.layers_view()[l2].len() ==> self.layout
                        .neurons@[#[trigger] orig.layers_view()[l2][j] as int] == orig.neurons@[
                        orig.layers_view()[l2][j] as int
                    ],
            decreases layer_count - l,
        {
            proof {
                orig.lemma_row_facts(l as int);
                orig.lemma_row_facts(l - 1);
                orig.lemma_rows_disjoint(l - 1, l as int);
                assert(self.layout.layers_view() == orig.layers_view());
            }
            let ghost pre = self.layout.neurons@;
            let ghost row = orig.layers_view()[l as int];
            let ghost prev_row = orig.layers_view()[l - 1];
            proof {
                assert(self.layout.layers@[l as int]@ == row);
                assert(self.layout.layers@[l - 1]@ == prev_row);
                assert forall|j: int| 0 <= j < row.len() && j + 1 < row.len() implies !pre[
                    #[trigger] row[j] as int
                ].bias by {
                    assert(!orig.neurons_view()[row[j] as int].bias);
                }
                assert(row_computed(pre, row) == orig.computed_count(l as int)) by {
                    if row.len() > 0 {
                        assert(pre[row.last() as int].bias == orig.neurons_view()[row.last() as int].bias);
                    }
                }
                assert forall|j: int| 0 <= j < row_computed(pre, row) implies pre[
                    #[trigger] row[j] as int
                ].inputs@.len() == prev_row.len() by {
                    assert(!orig.neurons_view()[row[j] as int].bias);
                    assert(orig.neurons_view()[row[j] as int].inputs.len() == prev_row.len());
                }
                assert forall|k: int| 0 <= k < prev_row.len() implies pre[
                    #[trigger] prev_row[k] as int
                ].value is Some by {
                    assert(pre[prev_row[k] as int].value == Some(
                        layer_values(orig, arith, inputs, l - 1)[k],
                    ));
                }
            }
            Self::fire_layer(
                &self.layout.layers[l],
                &self.layout.layers[l - 1],
                &mut self.layout.neurons,
                &self.arith,
            );
            proof {
                let post = self.layout.neurons@;
                let count = row_computed(pre, row);
                let prev_vals = previous_values(pre, prev_row);
                assert(prev_vals =~= layer_values(orig, arith, inputs, l - 1));
                // The layer just fired now caches its layer_values entries.
                assert forall|j: int| 0 <= j < row.len() implies post[#[trigger] row[j] as int].value
                    == Some(layer_values(orig, arith, inputs, l as int)[j]) by {
                    if j < count {
                        assert(post[row[j] as int].value == Some(
                            arith.spec_activate(
                                wsum(arith, pre[row[j] as int].inputs@, prev_vals, prev_row.len() as int),
                            ),
                        ));
                        assert(pre[row[j] as int].inputs@ == orig.neurons_view()[row[j] as int].inputs);
                    } else {
                        assert(forall|t: int| 0 <= t < count ==> row[t] != row[j]);
                        assert(post[row[j] as int] == pre[row[j] as int]);
                        assert(pre[row[j] as int] == orig.neurons@[row[j] as int]);
                        assert(orig.neurons_view()[row[j] as int].bias);
                        assert(orig.neurons_view()[row[j] as int].value is Some);
                    }
                }
                // Earlier layers and later layers kept their records.
                assert forall|l2: int, j: int|
                    0 <= l2 < orig.layers_view().len() && l2 != l && 0 <= j < orig.layers_view()[l2].len() implies post[
                    #[trigger] orig.layers_view()[l2][j] as int
                ] == pre[orig.layers_view()[l2][j] as int] by {
                    if l2 < l {
                        orig.lemma_rows_disjoint(l2, l as int);
                    } else {
                        orig.lemma_rows_disjoint(l as int, l2);
                    }
                    orig.lemma_row_facts(l2);
                    assert(forall|t: int| 0 <= t < count ==> row[t] != orig.layers_view()[l2][j]);
                }
            }
            l = l + 1;
        }
        proof {
            let fin = self.layout;
            assert(fin.layers_view() == orig.layers_view());
            assert forall|i: int| 0 <= i < orig.neurons_view().len() implies (
            #[trigger] fin.neurons_view()[i]).bias == orig.neurons_view()[i].bias
                && fin.neurons_view()[i].inputs == orig.neurons_view()[i].inputs by {
                assert(fin.neurons_view()[i] == fin.neurons@[i]@);
                assert(orig.neurons_view()[i] == orig.neurons@[i]@);
            }
            assert(same_structure(orig, fin));
            assert forall|l2: int, j: int|
                0 <= l2 < orig.layers_view().len() && 0 <= j < orig.layers_view()[l2].len() implies fin.neurons_view()[
                #[trigger] orig.layers_view()[l2][j] as int
            ].value == Some(layer_values(orig, arith, inputs, l2)[j]) by {
                orig.lemma_wf_indices(l2, j);
                let i = orig.layers_view()[l2][j] as int;
                assert(fin.neurons_view()[i] == fin.neurons@[i]@);
            }
            assert(fired(orig, fin, arith, inputs));
            assert forall|i: int|
                0 <= i < fin.neurons_view().len() && fin.neurons_view()[i].bias implies (
            #[trigger] fin.neurons_view()[i].value) is Some by {
                orig.lemma_position_of(i);
                let (l2, j) = choose|l2: int, j: int|
                    0 <= l2 < orig.layers_view().len() && 0 <= j < orig.layers_view()[l2].len()
                        && #[trigger] orig.layers_view()[l2][j] as int == i;
                assert(fin.neurons_view()[i].value == Some(
                    layer_values(orig, arith, inputs, l2)[j],
                ));
            }
            lemma_fired_wf(orig, self.layout);
        }
        Ok(())
    }
}

impl<A: Arithmetic> Network<A> {
    /// The values of the last layer's neurons, in layer order.
    ///
    /// Fails with `EmptyNetworkError` on a network without layers and with
    /// `UncomputedValueError` when some neuron of the last layer has never
    /// been given a value — reading an unfired network is an error, never a
    /// default.
    pub fn get_output(&self) -> (r: Result<Vec<u64>, Error>)
        requires
            self.layout.wf(),
        ensures
            match r {
                Ok(out) => {
                    let ls = self.layout.layers_view();
                    let last = ls[ls.len() - 1];
                    &&& ls.len() > 0
                    &&& out@.len() == last.len()
                    &&& forall|j: int|
                        0 <= j < last.len() ==> self.layout.neurons_view()[
                            #[trigger] last[j] as int
                        ].value == Some(out@[j])
                },
                Err(Error::EmptyNetworkError) => self.layout.layers_view().len() == 0,
                Err(Error::UncomputedValueError) => {
                    let ls = self.layout.layers_view();
                    &&& ls.len() > 0
                    &&& exists|j: int|
                        0 <= j < ls[ls.len() - 1].len() && self.layout.neurons_view()[
                            #[trigger] ls[ls.len() - 1][j] as int
                        ].value is None
                },
                Err(_) => false,
            },
    {
        let layer_count = self.layout.layers.len();
        if layer_count == 0 {
            return Err(Error::EmptyNetworkError);
        }
        proof {
            self.layout.lemma_row_facts(layer_count - 1);
        }
        let last = &self.layout.layers[layer_count - 1];
        let ghost row = self.layout.layers_view()[layer_count - 1];
        let mut out: Vec<u64> = Vec::new();
        let mut j: usize = 0;
        while j < last.len()
            invariant
                j <= row.len(),
                layer_count == self.layout.layers_view().len(),
                layer_count > 0,
                last@ == row,
                row == self.layout.layers_view()[layer_count - 1],
                forall|t: int| 0 <= t < row.len() ==> #[trigger] row[t] < self.layout.neurons@.len(),
                out@.len() == j,
                forall|t: int|
                    0 <= t < j ==> self.layout.neurons_view()[#[trigger] row[t] as int].value
                        == Some(out@[t]),
            decreases row.len() - j,
        {
            let i = last[j];
            match self.layout.neurons[i].value {
                Some(v) => {
                    out.push(v);
                    proof {
                        assert(self.layout.neurons_view()[i as int] == self.layout.neurons@[
                            i as int
                        ]@);
                    }
                },
                None => {
                    proof {
                        assert(self.layout.neurons_view()[i as int] == self.layout.neurons@[
                            i as int
                        ]@);
                        assert(self.layout.neurons_view()[row[j as int] as int].value is None);
                    }
                    return Err(Error::UncomputedValueError);
                },
            }
            j = j + 1;
        }
        Ok(out)
    }
}

/// What a freshly built genome looks like for the layer sizes `counts`: one
/// layer per count, each holding its count of ordinary neurons — still
/// without values — and, when bias is enabled, one trailing bias neuron per
/// non-output layer, fixed at `bias_value`. The layout is well-formed, so
/// weight counts follow: one weight per neuron of the previous layer, none
/// on the first layer.
pub open spec fn built_layout(
    layout: NetworkLayout,
    counts: Seq<usize>,
    bias: bool,
    bias_value: u64,
) -> bool {
    let ls = layout.layers_view();
    let ns = layout.neurons_view();
    &&& layout.wf()
    &&& ls.len() == counts.len()
    &&& forall|l: int|
        0 <= l < ls.len() ==> (#[trigger] ls[l]).len() == counts[l] + (if bias && l + 1 < ls.len() {
            1int
        } else {
            0int
        })
    &&& forall|l: int, j: int|
        0 <= l < ls.len() && 0 <= j < counts[l] as int ==> !ns[#[trigger] ls[l][j] as int].bias && ns[
            ls[l][j] as int
        ].value is None
    &&& forall|l: int|
        0 <= l < ls.len() && bias && l + 1 < ls.len() ==> ns[(#[trigger] ls[l])[counts[l] as int] as int].bias
            && ns[ls[l][counts[l] as int] as int].value == Some(bias_value)
}

/// Builds a whole network: one layer after the other into a single arena,
/// wired to the previous layer, with a bias neuron appended to every layer
/// but the last when bias is enabled.
///
/// Unconfigured pieces — layer sizes, random source, arithmetic — and a
/// topology of fewer than two layers are configuration errors, reported
/// before anything is built.
pub struct NetworkBuilder<A: Arithmetic, R: RandomProvider> {
    neurons_per_layer: Option<Vec<usize>>,
    randomizer: Option<R>,
    activator: Option<A>,
    bias: bool,
}

impl<A: Arithmetic, R: RandomProvider> NetworkBuilder<A, R> {
    /// The configured layer sizes, if any.
    pub closed spec fn spec_neurons_per_layer(&self) -> Option<Vec<usize>> {
        self.neurons_per_layer
    }

    /// The configured random source, if any.
    pub closed spec fn spec_randomizer(&self) -> Option<R> {
        self.randomizer
    }

    /// The configured arithmetic, if any.
    pub closed spec fn spec_activator(&self) -> Option<A> {
        self.activator
    }

    /// Whether non-output layers get a bias neuron.
    pub closed spec fn spec_bias(&self) -> bool {
        self.bias
    }

    /// A builder with nothing configured; bias neurons are on by default.
    pub fn new() -> (r: NetworkBuilder<A, R>)
        ensures
            r.spec_neurons_per_layer() is None,
            r.spec_randomizer() is None,
            r.spec_activator() is None,
            r.spec_bias() == true,
    {
        NetworkBuilder { neurons_per_layer: None, randomizer: None, activator: None, bias: true }
    }

    /// Sets the layer sizes, input layer first.
    pub fn with_neurons_per_layer(self, neurons_per_layer: Vec<usize>) -> (r: NetworkBuilder<A, R>)
        ensures
            r.spec_neurons_per_layer() is Some && r.spec_neurons_per_layer()->0@
                == neurons_per_layer@,
            r.spec_randomizer() == self.spec_randomizer(),
            r.spec_activator() == self.spec_activator(),
            r.spec_bias() == self.spec_bias(),
    {
        NetworkBuilder { neurons_per_layer: Some(neurons_per_layer), ..self }
    }

    /// Hands over the random source every weight is drawn from; `build`
    /// returns it beside the network.
    pub fn with_randomizer(self, randomizer: R) -> (r: NetworkBuilder<A, R>)
        ensures
            r.spec_randomizer() == Some(randomizer),
            r.spec_neurons_per_layer() == self.spec_neurons_per_layer(),
            r.spec_activator() == self.spec_activator(),
            r.spec_bias() == self.spec_bias(),
    {
        NetworkBuilder { randomizer: Some(randomizer), ..self }
    }

    /// Sets the scalar arithmetic, whose `activate` is the network's
    /// activation function and whose `one` is the bias value.
    pub fn with_activator(self, activator: A) -> (r: NetworkBuilder<A, R>)
        ensures
            r.spec_activator() == Some(activator),
            r.spec_neurons_per_layer() == self.spec_neurons_per_layer(),
            r.spec_randomizer() == self.spec_randomizer(),
            r.spec_bias() == self.spec_bias(),
    {
        NetworkBuilder { activator: Some(activator), ..self }
    }

    /// Chooses whether non-output layers end in a bias neuron.
    pub fn with_bias(self, bias: bool) -> (r: NetworkBuilder<A, R>)
        ensures
            r.spec_bias() == bias,
            r.spec_neurons_per_layer() == self.spec_neurons_per_layer(),
            r.spec_randomizer() == self.spec_randomizer(),
            r.spec_activator() == self.spec_activator(),
    {
        NetworkBuilder { bias, ..self }
    }

    /// How many neurons layer `l` of the finished network will hold.
    pub open spec fn spec_row_len(&self, l: int) -> int {
        let counts = self.spec_neurons_per_layer()->0@;
        counts[l] + (if self.spec_bias() && l + 1 < counts.len() {
            1int
        } else {
            0int
        })
    }

    /// Builds the network and returns it beside the random source.
    ///
    /// Succeeds exactly when layer sizes, random source and arithmetic were
    /// all supplied and there are at least two layers; the genome then has
    /// the built shape for those sizes, and the source was drawn from once
    /// per connection weight, in creation order.
    #[verifier::rlimit(100)]
    pub fn build(self) -> (r: Result<(Network<A>, R), Error>)
        ensures
            r is Ok <==> (self.spec_neurons_per_layer() is Some && self.spec_randomizer() is Some
                && self.spec_activator() is Some && self.spec_neurons_per_layer()->0@.len() >= 2),
            r is Err ==> r == Result::<(Network<A>, R), Error>::Err(Error::ConfigurationError),
            r is Ok ==> ({
                let net = r->Ok_0.0;
                let rand = r->Ok_0.1;
                let arith = self.spec_activator()->0;
                &&& net.arith == arith
                &&& built_layout(
                    net.layout,
                    self.spec_neurons_per_layer()->0@,
                    self.spec_bias(),
                    arith.spec_one(),
                )
                &&& rand.drawn() == self.spec_randomizer()->0.drawn() + concat_inputs(
                    net.layout.neurons_view(),
                )
            }),
    {
        let (counts, mut randomizer, activator) = match (
            self.neurons_per_layer,
            self.randomizer,
            self.activator,
        ) {
            (Some(c), Some(ra), Some(a)) => (c, ra, a),
            _ => {
                return Err(Error::ConfigurationError);
            },
        };
        if counts.len() < 2 {
            return Err(Error::ConfigurationError);
        }
        let one = activator.one();
        let bias = self.bias;
        let ghost pre_drawn = randomizer.drawn();
        let mut capacity: usize = 0;
        let mut c: usize = 0;
        while c < counts.len()
            decreases counts@.len() - c,
        {
            capacity = capacity.saturating_add(counts[c]);
            capacity = capacity.saturating_add(1);
            c = c + 1;
        }
        let mut rep = NeuronRepository::new(capacity);
        let mut layers: Vec<Vec<usize>> = Vec::new();
        let mut previous: Option<Layer> = None;
        let mut l: usize = 0;
        while l < counts.len()
            invariant
                l <= counts@.len(),
                counts@.len() >= 2,
                layers@.len() == l,
                rep.neurons@.len() == rows_base(rows_of(layers@), l as int),
                randomizer.drawn() == pre_drawn + concat_inputs(neuron_views(rep.neurons@)),
                l >= 1 ==> previous is Some && previous->0.neurons@ == rows_of(layers@)[l - 1],
                l == 0 ==> previous is None,
                forall|l2: int|
                    0 <= l2 < l ==> (#[trigger] rows_of(layers@)[l2]).len() == counts@[l2] + (
                    if bias && l2 + 1 < counts@.len() {
                        1int
                    } else {
                        0int
                    }),
                forall|l2: int, t: int|
                    0 <= l2 < l && 0 <= t < rows_of(layers@)[l2].len() ==> #[trigger] rows_of(
                        layers@,
                    )[l2][t] as int == rows_base(rows_of(layers@), l2) + t,
                forall|l2: int, j: int|
                    0 <= l2 < l && 0 <= j < counts@[l2] as int ==> !neuron_views(rep.neurons@)[
                        #[trigger] rows_of(layers@)[l2][j] as int
                    ].bias && neuron_views(rep.neurons@)[rows_of(layers@)[l2][j] as int].value
                        is None,
                forall|l2: int|
                    0 <= l2 < l && bias && l2 + 1 < counts@.len() ==> neuron_views(rep.neurons@)[(
                    #[trigger] rows_of(layers@)[l2])[counts@[l2] as int] as int].bias
                        && neuron_views(rep.neurons@)[rows_of(layers@)[l2][counts@[l2] as int] as int].value
                        == Some(one),
                forall|l2: int, j: int|
                    0 <= l2 < l && 0 <= j < rows_of(layers@)[l2].len() && !neuron_views(
                        rep.neurons@,
                    )[rows_of(layers@)[l2][j] as int].bias ==> (#[trigger] neuron_views(
                        rep.neurons@,
                    )[rows_of(layers@)[l2][j] as int].inputs).len() == (if l2 == 0 {
                        0int
                    } else {
                        rows_of(layers@)[l2 - 1].len() as int
                    }),
                forall|l2: int, j: int|
                    0 <= l2 < l && 0 <= j < rows_of(layers@)[l2].len() && neuron_views(rep.neurons@)[
                        rows_of(layers@)[l2][j] as int
                    ].bias ==> (#[trigger] neuron_views(rep.neurons@)[
                        rows_of(layers@)[l2][j] as int
                    ].inputs).len() == 0 && neuron_views(rep.neurons@)[
                        rows_of(layers@)[l2][j] as int
                    ].value is Some,
                forall|l2: int, j: int|
                    0 <= l2 < l && 0 <= j < rows_of(layers@)[l2].len() && j + 1 < rows_of(layers@)[
                        l2
                    ].len() ==> !neuron_views(rep.neurons@)[#[trigger] rows_of(layers@)[l2][j] as int].bias,
            decreases counts@.len() - l,
        {
            let is_last = l + 1 == counts.len();
            let with_bias_here = bias && !is_last;
            let ghost old_layers = layers@;
            let ghost old_rep = rep.neurons@;
            let ghost base = rep.neurons@.len() as int;
            let count_here = counts[l];
            let builder = LayerBuilder::new().with_neurons(count_here).with_neuron_repository(rep)
                .with_previous_layer(
                match &previous {
                    Some(p) => Some(p),
                    None => None,
                },
            ).with_bias(with_bias_here);
            let ghost prev_len = builder.spec_prev_len();
            let ghost n_here = count_here as int;
            let ghost total = n_here + if with_bias_here {
                1int
            } else {
                0int
            };
            let (layer, rep_back) = builder.build(&mut randomizer, one);
            rep = match rep_back {
                Some(rp) => rp,
                None => {
                    proof {
                        assert(false);
                    }
                    NeuronRepository::new(0)
                },
            };
            let ghost row_seq = layer.neurons@;
            previous = Some(Layer { neurons: clone_indices(&layer.neurons) });
            layers.push(layer.neurons);
            l = l + 1;
            proof {
                let old_rows = rows_of(old_layers);
                let new_rows = rows_of(layers@);
                assert(layers@ == old_layers.push(layers@.last()));
                assert(layers@.last()@ == row_seq);
                assert(new_rows =~= old_rows.push(row_seq));
                assert forall|l2: int| 0 <= l2 <= old_rows.len() implies #[trigger] rows_base(
                    new_rows,
                    l2,
                ) == rows_base(old_rows, l2) by {
                    lemma_rows_base_push(old_rows, row_seq, l2);
                }
                assert(prev_len == if l - 1 == 0 {
                    0int
                } else {
                    old_rows[l - 2].len() as int
                });
                let old_views = neuron_views(old_rep);
                let new_views = neuron_views(rep.neurons@);
                let fresh = new_views.subrange(base, base + total);
                assert forall|idx: int| 0 <= idx < base implies #[trigger] new_views[idx]
                    == old_views[idx] by {
                    assert(new_views.subrange(0, base)[idx] == new_views[idx]);
                }
                assert forall|idx: int| base <= idx < base + total implies #[trigger] new_views[idx]
                    == fresh[idx - base] by {
                    assert(fresh[idx - base] == new_views[idx]);
                }
                assert(new_views =~= old_views + fresh);
                lemma_concat_inputs_append(old_views, fresh);
                assert(new_rows[l - 1] == row_seq);
                assert(rows_base(new_rows, l - 1) == base);
                assert(row_seq.len() == total);
                assert forall|t: int| 0 <= t < row_seq.len() implies #[trigger] row_seq[t] as int
                    == base + t by {}
                assert forall|l2: int, j: int|
                    0 <= l2 < l - 1 && 0 <= j < old_rows[l2].len() implies (#[trigger] old_rows[l2][j] as int)
                    < base by {
                    lemma_rows_base_nonneg(old_rows, l2);
                    lemma_rows_base_mono(old_rows, l2 + 1, l - 1);
                }
            }
        }
        let layout = NetworkLayout { neurons: rep.neurons, layers };
        proof {
            let rows = layout.layers_view();
            let ns = layout.neurons_view();
            assert(rows =~= rows_of(layout.layers@));
            assert forall|l2: int| #[trigger] layout.layer_base(l2) == rows_base(rows, l2) by {}
            assert(rows_base(rows, rows.len() as int) == ns.len());
            assert forall|i: int| 0 <= i < ns.len() && ns[i].bias implies (
            #[trigger] ns[i].value) is Some && ns[i].inputs.len() == 0 by {
                let (l2, j) = lemma_rows_position(rows, i);
                assert(rows[l2][j] as int == i);
            }
            assert(layout.wf());
            assert(built_layout(layout, counts@, bias, one));
        }
        Ok((Network { layout, arith: activator }, randomizer))
    }
}

/// The rows of a list of index lists, as sequences.
pub open spec fn rows_of(rows: Seq<Vec<usize>>) -> Seq<Seq<usize>> {
    rows.map_values(|r: Vec<usize>| r@)
}

/// A layout that shares its structure with a well-formed one, and whose
/// bias neurons still carry values, is well-formed itself.
proof fn lemma_fired_wf(a: NetworkLayout, b: NetworkLayout)
    requires
        a.wf(),
        same_structure(a, b),
        forall|i: int|
            0 <= i < b.neurons_view().len() && b.neurons_view()[i].bias
                ==> (#[trigger] b.neurons_view()[i].value) is Some,
    ensures
        b.wf(),
{
    let ls = a.layers_view();
    assert(b.layers_view() == ls);
    assert forall|l: int| 0 <= l implies #[trigger] b.layer_base(l) == a.layer_base(l) by {
        lemma_layer_base_same_rows(a, b, l);
    }
    assert forall|l: int, j: int| 0 <= l < ls.len() && 0 <= j < ls[l].len() implies #[trigger] ls[l][j]
        == b.layer_base(l) + j && ls[l][j] < b.neurons_view().len() by {
        a.lemma_wf_indices(l, j);
    }
    assert(b.layer_base(ls.len() as int) == b.neurons_view().len());
    assert forall|l: int, j: int| 0 <= l < ls.len() && 0 <= j && j + 1 < ls[l].len() implies !b.neurons_view()[
        #[trigger] ls[l][j] as int
    ].bias by {
        a.lemma_wf_indices(l, j);
    }
    assert forall|i: int| 0 <= i < b.neurons_view().len() && b.neurons_view()[i].bias implies (
    #[trigger] b.neurons_view()[i].value) is Some && b.neurons_view()[i].inputs.len() == 0 by {
        assert(a.neurons_view()[i].bias);
        assert(a.neurons_view()[i].value is Some);
        assert(b.neurons_view()[i].inputs == a.neurons_view()[i].inputs);
    }
    assert forall|l: int, j: int|
        1 <= l < ls.len() && 0 <= j < ls[l].len() && !b.neurons_view()[ls[l][j] as int].bias implies (
    #[trigger] b.neurons_view()[ls[l][j] as int].inputs).len() == ls[l - 1].len() by {
        a.lemma_wf_indices(l, j);
        assert(!a.neurons_view()[ls[l][j] as int].bias);
    }
    if ls.len() > 0 {
        assert forall|j: int| 0 <= j < ls[0].len() implies (#[trigger] b.neurons_view()[
            ls[0][j] as int
        ].inputs).len() == 0 by {
            a.lemma_wf_indices(0, j);
        }
    }
}

/// Equal layer lists give equal layer bases.
pub proof fn lemma_layer_base_same_rows(a: NetworkLayout, b: NetworkLayout, l: int)
    requires
        a.layers_view() == b.layers_view(),
    ensures
        b.layer_base(l) == a.layer_base(l),
    decreases l,
{
    if l > 0 {
        lemma_layer_base_same_rows(a, b, l - 1);
    }
}

/// The evaluation of a genome depends only on its mathematical image.
pub proof fn lemma_layer_values_congruent<A: Arithmetic>(
    a: NetworkLayout,
    b: NetworkLayout,
    arith: A,
    inputs: Seq<u64>,
    l: int,
)
    requires
        b.layers_view() == a.layers_view(),
        b.neurons_view() == a.neurons_view(),
    ensures
        layer_values(b, arith, inputs, l) == layer_values(a, arith, inputs, l),
    decreases
            (if l <= 0 {
                0int
            } else {
                l
            }),
{
    if l <= 0 {
        assert(layer_values(b, arith, inputs, l) =~= layer_values(a, arith, inputs, l));
    } else {
        lemma_layer_values_congruent(a, b, arith, inputs, l - 1);
        assert(layer_values(b, arith, inputs, l) =~= layer_values(a, arith, inputs, l));
    }
}

/// Well-formedness depends only on the mathematical image of a genome.
pub proof fn lemma_wf_congruent(a: NetworkLayout, b: NetworkLayout)
    requires
        a.wf(),
        b.layers_view() == a.layers_view(),
        b.neurons_view() == a.neurons_view(),
    ensures
        b.wf(),
{
    assert forall|l: int| #[trigger] b.layer_base(l) == a.layer_base(l) by {
        lemma_layer_base_same_rows(a, b, l);
    }
}

/// Two genomes built for the same layer sizes, with the same bias setting,
/// lay their layers out identically.
pub proof fn lemma_built_rows_equal(
    a: NetworkLayout,
    b: NetworkLayout,
    counts: Seq<usize>,
    bias: bool,
    va: u64,
    vb: u64,
)
    requires
        built_layout(a, counts, bias, va),
        built_layout(b, counts, bias, vb),
    ensures
        a.layers_view() == b.layers_view(),
        a.neurons_view().len() == b.neurons_view().len(),
{
    let la = a.layers_view();
    let lb = b.layers_view();
    assert forall|l: int| 0 <= l <= la.len() implies #[trigger] a.layer_base(l) == b.layer_base(
        l,
    ) by {
        lemma_layer_base_prefix_equal(a, b, l);
    }
    assert forall|l: int| 0 <= l < la.len() implies #[trigger] la[l] == lb[l] by {
        a.lemma_row_facts(l);
        b.lemma_row_facts(l);
        assert(la[l] =~= lb[l]);
    }
    assert(la =~= lb);
}

proof fn lemma_layer_base_prefix_equal(a: NetworkLayout, b: NetworkLayout, l: int)
    requires
        a.layers_view().len() == b.layers_view().len(),
        forall|l2: int|
            0 <= l2 < a.layers_view().len() ==> (#[trigger] a.layers_view()[l2]).len()
                == b.layers_view()[l2].len(),
        0 <= l <= a.layers_view().len(),
    ensures
        a.layer_base(l) == b.layer_base(l),
    decreases l,
{
    if l > 0 {
        lemma_layer_base_prefix_equal(a, b, l - 1);
    }
}

/// Indexing facts shared by two layouts with the same layer lists and the
/// same neuron count.
proof fn lemma_structure_indexing(a: NetworkLayout, b: NetworkLayout)
    requires
        b.layers_view() == a.layers_view(),
        b.neurons@.len() == a.neurons@.len(),
    ensures
        forall|l: int| b.layer_base(l) == a.layer_base(l),
        b.neurons_view().len() == a.neurons_view().len(),
{
    assert forall|l: int| b.layer_base(l) == a.layer_base(l) by {
        lemma_layer_base_same_rows(a, b, l);
    }
}

/// How many leading entries of a layer row the engine computes: all of them
/// unless the row ends in a bias neuron, which is skipped.
pub open spec fn row_computed(neurons: Seq<Neuron>, layer: Seq<usize>) -> int {
    if layer.len() > 0 && neurons[layer.last() as int].bias {
        layer.len() - 1
    } else {
        layer.len() as int
    }
}

} // verus!
