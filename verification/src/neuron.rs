use vstd::prelude::*;
use crate::randomizer::RandomProvider;

verus! {

/// One record of the genome: a cached computed value, a bias marker, and the
/// list of connection weights toward the previous layer.
///
/// `inputs[j]` weighs the contribution of the `j`-th neuron of the previous
/// layer (in layer order, bias neuron included). A freshly built ordinary
/// neuron has no value until the network fires; a bias neuron carries its
/// fixed value from construction on and has no weights.
#[derive(Clone, Debug, PartialEq)]
pub struct Neuron {
    /// The cached result of the last evaluation, absent until computed.
    pub value: Option<u64>,
    /// True for a bias neuron, whose value is fixed and never recomputed.
    pub bias: bool,
    /// Connection weights, one per neuron of the previous layer.
    pub inputs: Vec<u64>,
}

/// The mathematical image of a [`Neuron`]: the same three fields with the
/// weight list as a sequence.
pub ghost struct NeuronView {
    pub value: Option<u64>,
    pub bias: bool,
    pub inputs: Seq<u64>,
}

impl View for Neuron {
    type V = NeuronView;

    open spec fn view(&self) -> NeuronView {
        NeuronView { value: self.value, bias: self.bias, inputs: self.inputs@ }
    }
}

impl Neuron {
    /// Creates one neuron, drawing one weight per predecessor from the
    /// supplied source, in order. A bias neuron starts out holding
    /// `bias_value`; an ordinary one starts with no value.
    pub fn new<R: RandomProvider>(
        bias: bool,
        number_of_inputs: usize,
        randomizer: &mut R,
        bias_value: u64,
    ) -> (r: Neuron)
        ensures
            r.bias == bias,
            r.value == if bias { Some(bias_value) } else { None::<u64> },
            r.inputs@.len() == number_of_inputs,
            final(randomizer).drawn() == old(randomizer).drawn() + r.inputs@,
    {
        let ghost pre = randomizer.drawn();
        let mut inputs: Vec<u64> = Vec::new();
        let mut j: usize = 0;
        while j < number_of_inputs
            invariant
                j <= number_of_inputs,
                inputs@.len() == j,
                randomizer.drawn() == pre + inputs@,
            decreases number_of_inputs - j,
        {
            let w = randomizer.get_number();
            inputs.push(w);
            j = j + 1;
        }
        proof {
            assert(randomizer.drawn() == pre + inputs@);
        }
        Neuron {
            value: if bias { Some(bias_value) } else { None },
            bias,
            inputs,
        }
    }

    /// An exact copy of this neuron.
    pub fn duplicate(&self) -> (r: Neuron)
        ensures
            r@ == self@,
    {
        Neuron { value: self.value, bias: self.bias, inputs: clone_weights(&self.inputs) }
    }
}

/// The mathematical images of a whole sequence of neurons.
pub open spec fn neuron_views(s: Seq<Neuron>) -> Seq<NeuronView> {
    s.map_values(|n: Neuron| n@)
}

/// All connection weights of a run of neuron records, in creation order:
/// the weights of the first record, then of the second, and so on.
pub open spec fn concat_inputs(ns: Seq<NeuronView>) -> Seq<u64>
    decreases ns.len(),
{
    if ns.len() == 0 {
        Seq::empty()
    } else {
        concat_inputs(ns.drop_last()) + ns.last().inputs
    }
}

/// Each view in the mapped sequence is the view of the neuron at its place.
pub proof fn lemma_neuron_views_index(s: Seq<Neuron>)
    ensures
        forall|i: int| 0 <= i < s.len() ==> #[trigger] neuron_views(s)[i] == s[i]@,
{
}

/// Appending one record appends exactly its weights to the concatenation.
pub proof fn lemma_concat_inputs_push(ns: Seq<NeuronView>, v: NeuronView)
    ensures
        concat_inputs(ns.push(v)) == concat_inputs(ns) + v.inputs,
{
    assert(ns.push(v).drop_last() =~= ns);
    assert(ns.push(v).last() == v);
}

/// Appending a neuron leaves the views of an existing prefix as they were.
pub proof fn lemma_views_push_prefix(s: Seq<Neuron>, x: Neuron, base: int)
    requires
        0 <= base <= s.len(),
    ensures
        neuron_views(s.push(x)).subrange(0, base) == neuron_views(s).subrange(0, base),
{
    let t = s.push(x);
    assert(forall|k: int| 0 <= k < s.len() ==> neuron_views(t)[k] == neuron_views(s)[k]);
    assert(neuron_views(t).subrange(0, base) =~= neuron_views(s).subrange(0, base));
}

/// Appending a neuron extends the views of a trailing run by its view.
pub proof fn lemma_views_push_suffix(s: Seq<Neuron>, x: Neuron, base: int)
    requires
        0 <= base <= s.len(),
    ensures
        neuron_views(s.push(x)).subrange(base, s.len() as int + 1) == neuron_views(s).subrange(
            base,
            s.len() as int,
        ).push(x@),
{
    let t = s.push(x);
    assert(forall|k: int| 0 <= k < s.len() ==> neuron_views(t)[k] == neuron_views(s)[k]);
    assert(neuron_views(t)[s.len() as int] == x@);
    assert(neuron_views(t).subrange(base, s.len() as int + 1) =~= neuron_views(s).subrange(
        base,
        s.len() as int,
    ).push(x@));
}

/// The concatenation of weights distributes over appending runs of records.
pub proof fn lemma_concat_inputs_append(a: Seq<NeuronView>, b: Seq<NeuronView>)
    ensures
        concat_inputs(a + b) == concat_inputs(a) + concat_inputs(b),
    decreases b.len(),
{
    if b.len() == 0 {
        assert(a + b =~= a);
        assert(concat_inputs(a) + concat_inputs(b) =~= concat_inputs(a));
    } else {
        lemma_concat_inputs_append(a, b.drop_last());
        assert((a + b).drop_last() =~= a + b.drop_last());
        assert((a + b).last() == b.last());
        assert(concat_inputs(a) + concat_inputs(b.drop_last()) + b.last().inputs =~= concat_inputs(
            a,
        ) + (concat_inputs(b.drop_last()) + b.last().inputs));
    }
}

/// Splitting a run of records anywhere splits its weights the same way.
pub proof fn lemma_concat_inputs_split(s: Seq<NeuronView>, k: int)
    requires
        0 <= k <= s.len(),
    ensures
        concat_inputs(s) == concat_inputs(s.subrange(0, k)) + concat_inputs(
            s.subrange(k, s.len() as int),
        ),
{
    assert(s =~= s.subrange(0, k) + s.subrange(k, s.len() as int));
    lemma_concat_inputs_append(s.subrange(0, k), s.subrange(k, s.len() as int));
}

/// Copies a weight list verbatim.
pub(crate) fn clone_weights(v: &Vec<u64>) -> (r: Vec<u64>)
    ensures
        r@ == v@,
{
    let r = v.clone();
    proof {
        assert forall|i: int| 0 <= i < v@.len() implies r@[i] == v@[i] by {
            assert(cloned::<u64>(v@[i], r@[i]));
        }
        assert(r@ =~= v@);
    }
    r
}

} // verus!
