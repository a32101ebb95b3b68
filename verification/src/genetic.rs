use vstd::prelude::*;
use crate::network::NetworkLayout;
use crate::neuron::{concat_inputs, neuron_views, Neuron};
use crate::randomizer::RandomProvider;

verus! {

/// A source of per-weight mutation decisions, one per call.
///
/// The mutation operator flips one independent coin per connection weight;
/// the coin source is handed in explicitly so that runs can be reproduced.
/// `decided` records every decision made, oldest first, and `should_mutate`
/// promises only to append its result — how the probability steers the coin
/// is the implementation's own affair.
pub trait MutationDecider: Sized {
    /// Every decision this source has made so far, oldest first.
    ///
    /// The default stands in for sources implemented outside the
    /// verifier's sight; a verified source gives its own record.
    open spec fn decided(&self) -> Seq<bool> {
        Seq::empty()
    }

    /// Decides whether one weight is replaced; `probability` is the
    /// caller's mutation probability, handed through as an opaque scalar.
    fn should_mutate(&mut self, probability: u64) -> (r: bool)
        ensures
            final(self).decided() == old(self).decided().push(r),
    ;
}

/// A deterministic decision source: cycles through a fixed pattern of
/// decisions, ignoring the probability. An empty pattern never mutates.
pub struct PatternDecider {
    pattern: Vec<bool>,
    position: usize,
    history: Ghost<Seq<bool>>,
}

impl PatternDecider {
    /// A decider that answers with `pattern` over and over.
    pub fn new(pattern: Vec<bool>) -> (r: PatternDecider)
        ensures
            r.decided() == Seq::<bool>::empty(),
    {
        PatternDecider { pattern, position: 0, history: Ghost(Seq::empty()) }
    }
}

impl MutationDecider for PatternDecider {
    closed spec fn decided(&self) -> Seq<bool> {
        self.history@
    }

    fn should_mutate(&mut self, probability: u64) -> (r: bool) {
        let r = if self.pattern.len() == 0 {
            false
        } else {
            let idx = self.position % self.pattern.len();
            let r = self.pattern[idx];
            self.position = if idx + 1 < self.pattern.len() {
                idx + 1
            } else {
                0
            };
            r
        };
        proof {
            self.history@ = self.history@.push(r);
        }
        r
    }
}

/// How many of the decisions say "mutate".
pub open spec fn count_true(s: Seq<bool>) -> int
    decreases s.len(),
{
    if s.len() == 0 {
        0int
    } else {
        count_true(s.drop_last()) + if s.last() {
            1int
        } else {
            0int
        }
    }
}

/// One more decision adds one to the count exactly when it says "mutate".
pub proof fn lemma_count_true_push(s: Seq<bool>, b: bool)
    ensures
        count_true(s.push(b)) == count_true(s) + if b {
            1int
        } else {
            0int
        },
{
    assert(s.push(b).drop_last() =~= s);
}

/// The count of a concatenation is the sum of the counts.
pub proof fn lemma_count_true_append(a: Seq<bool>, b: Seq<bool>)
    ensures
        count_true(a + b) == count_true(a) + count_true(b),
    decreases b.len(),
{
    if b.len() == 0 {
        assert(a + b =~= a);
    } else {
        lemma_count_true_append(a, b.drop_last());
        assert((a + b).drop_last() =~= a + b.drop_last());
        assert((a + b).last() == b.last());
    }
}

/// Counting over a longer prefix never counts less.
pub proof fn lemma_count_true_take_mono(s: Seq<bool>, a: int, b: int)
    requires
        0 <= a <= b <= s.len(),
    ensures
        count_true(s.take(a)) <= count_true(s.take(b)),
{
    assert(s.take(b) =~= s.take(a) + s.take(b).skip(a));
    lemma_count_true_append(s.take(a), s.take(b).skip(a));
    lemma_count_true_bounds(s.take(b).skip(a));
}

/// The count never goes negative and never exceeds the length.
pub proof fn lemma_count_true_bounds(s: Seq<bool>)
    ensures
        0 <= count_true(s) <= s.len(),
    decreases s.len(),
{
    if s.len() > 0 {
        lemma_count_true_bounds(s.drop_last());
    }
}

/// A history that grew from `mid`, which itself grew from some prefix of
/// length `pre_len`, splits cleanly: the whole growth past `pre_len` is the
/// growth up to `mid` followed by the growth past it.
pub proof fn lemma_history_split<T>(pre_len: int, mid: Seq<T>, new: Seq<T>)
    requires
        0 <= pre_len <= mid.len() <= new.len(),
        new.take(mid.len() as int) == mid,
    ensures
        new.skip(pre_len) == mid.skip(pre_len) + new.skip(mid.len() as int),
        new.take(pre_len) == mid.take(pre_len),
{
    assert forall|i: int| 0 <= i < mid.len() implies new[i] == mid[i] by {
        assert(new.take(mid.len() as int)[i] == new[i]);
    }
    assert(new.skip(pre_len) =~= mid.skip(pre_len) + new.skip(mid.len() as int));
    assert(new.take(pre_len) =~= mid.take(pre_len));
}

/// What the mutation operator did to one run of weights, given what its two
/// sources handed out while it ran: `flips` holds one decision per weight,
/// `draws` one replacement value per positive decision, and each weight is
/// either replaced by its draw — the draws spent in weight order — or left
/// alone.
pub open spec fn mutated_weights(
    olds: Seq<u64>,
    news: Seq<u64>,
    flips: Seq<bool>,
    draws: Seq<u64>,
) -> bool {
    &&& flips.len() == olds.len()
    &&& news.len() == olds.len()
    &&& draws.len() == count_true(flips)
    &&& forall|t: int|
        0 <= t < olds.len() ==> #[trigger] news[t] == if flips[t] {
            draws[count_true(flips.take(t))]
        } else {
            olds[t]
        }
}

/// Flips one coin per weight and replaces exactly the weights whose coin
/// came up, each with one fresh draw, in order.
fn mutate_weights<R: RandomProvider, D: MutationDecider>(
    inputs: &Vec<u64>,
    randomizer: &mut R,
    decider: &mut D,
    mutation_probability: u64,
) -> (r: Vec<u64>)
    ensures
        mutated_weights(
            inputs@,
            r@,
            final(decider).decided().skip(old(decider).decided().len() as int),
            final(randomizer).drawn().skip(old(randomizer).drawn().len() as int),
        ),
        final(decider).decided().len() == old(decider).decided().len() + inputs@.len(),
        final(randomizer).drawn().len() >= old(randomizer).drawn().len(),
        final(decider).decided().take(old(decider).decided().len() as int) == old(
            decider,
        ).decided(),
        final(randomizer).drawn().take(old(randomizer).drawn().len() as int) == old(
            randomizer,
        ).drawn(),
{
    let ghost pre_dec = decider.decided();
    let ghost pre_drawn = randomizer.drawn();
    let mut r: Vec<u64> = Vec::new();
    let mut w: usize = 0;
    while w < inputs.len()
        invariant
            w <= inputs@.len(),
            r@.len() == w,
            decider.decided().len() == pre_dec.len() + w,
            decider.decided().take(pre_dec.len() as int) == pre_dec,
            randomizer.drawn().take(pre_drawn.len() as int) == pre_drawn,
            randomizer.drawn().len() == pre_drawn.len() + count_true(
                decider.decided().skip(pre_dec.len() as int),
            ),
            mutated_weights(
                inputs@.take(w as int),
                r@,
                decider.decided().skip(pre_dec.len() as int),
                randomizer.drawn().skip(pre_drawn.len() as int),
            ),
        decreases inputs@.len() - w,
    {
        let ghost flips0 = decider.decided().skip(pre_dec.len() as int);
        let ghost draws0 = randomizer.drawn().skip(pre_drawn.len() as int);
        let flip = decider.should_mutate(mutation_probability);
        proof {
            assert(decider.decided() =~= pre_dec + flips0.push(flip));
            assert(decider.decided().skip(pre_dec.len() as int) =~= flips0.push(flip));
            assert(decider.decided().take(pre_dec.len() as int) =~= pre_dec);
            lemma_count_true_push(flips0, flip);
        }
        if flip {
            let v = randomizer.get_number();
            r.push(v);
            proof {
                assert(randomizer.drawn().skip(pre_drawn.len() as int) =~= draws0.push(v));
                assert(randomizer.drawn().take(pre_drawn.len() as int) =~= pre_drawn);
                assert(flips0.push(flip).take(w as int) =~= flips0);
                assert(count_true(flips0.push(flip).take(w as int)) == draws0.len());
                assert(draws0.push(v)[draws0.len() as int] == v);
            }
        } else {
            r.push(inputs[w]);
            proof {
                assert(flips0.push(flip).take(w as int) =~= flips0);
            }
        }
        w = w + 1;
        proof {
            let flips = decider.decided().skip(pre_dec.len() as int);
            let draws = randomizer.drawn().skip(pre_drawn.len() as int);
            assert forall|t: int| 0 <= t < w implies #[trigger] r@[t] == if flips[t] {
                draws[count_true(flips.take(t))]
            } else {
                inputs@.take(w as int)[t]
            } by {
                if t < w - 1 {
                    assert(flips.take(t) =~= flips0.take(t));
                    assert(flips[t] == flips0[t]);
                    if flips0[t] {
                        lemma_count_true_bounds(flips0.take(t));
                        assert(count_true(flips0) >= count_true(flips0.take(t)) + if flips0[t] {
                            1int
                        } else {
                            0int
                        }) by {
                            lemma_count_true_take_rest(flips0, t);
                        }
                    }
                } else {
                    assert(flips.take(t) =~= flips0);
                }
            }
            assert(inputs@.take(w as int).len() == w);
        }
    }
    proof {
        assert(inputs@.take(inputs@.len() as int) =~= inputs@);
    }
    r
}

/// Mutating one run of weights after another is mutating their
/// concatenation: the decisions and draws line up end to end.
pub proof fn lemma_mutated_append(
    o1: Seq<u64>,
    n1: Seq<u64>,
    f1: Seq<bool>,
    d1: Seq<u64>,
    o2: Seq<u64>,
    n2: Seq<u64>,
    f2: Seq<bool>,
    d2: Seq<u64>,
)
    requires
        mutated_weights(o1, n1, f1, d1),
        mutated_weights(o2, n2, f2, d2),
    ensures
        mutated_weights(o1 + o2, n1 + n2, f1 + f2, d1 + d2),
{
    lemma_count_true_append(f1, f2);
    let olds = o1 + o2;
    let news = n1 + n2;
    let flips = f1 + f2;
    let draws = d1 + d2;
    assert forall|t: int| 0 <= t < olds.len() implies #[trigger] news[t] == if flips[t] {
        draws[count_true(flips.take(t))]
    } else {
        olds[t]
    } by {
        if t < o1.len() {
            assert(flips.take(t) =~= f1.take(t));
            assert(flips[t] == f1[t]);
            assert(news[t] == n1[t]);
            assert(olds[t] == o1[t]);
            if f1[t] {
                lemma_count_true_take_rest(f1, t);
                lemma_count_true_bounds(f1.take(t));
                assert(draws[count_true(f1.take(t))] == d1[count_true(f1.take(t))]);
            }
        } else {
            let t2 = t - o1.len();
            assert(flips.take(t) =~= f1 + f2.take(t2));
            lemma_count_true_append(f1, f2.take(t2));
            assert(flips[t] == f2[t2]);
            assert(news[t] == n2[t2]);
            assert(olds[t] == o2[t2]);
            if f2[t2] {
                lemma_count_true_take_rest(f2, t2);
                lemma_count_true_bounds(f2.take(t2));
                assert(draws[d1.len() + count_true(f2.take(t2))] == d2[count_true(f2.take(t2))]);
            }
        }
    }
}

/// The structure of `b` is that of `a` with only weight values changed:
/// the same layers, and per neuron the same bias marker, the same cached
/// value, and the same number of weights.
pub open spec fn same_shape(a: NetworkLayout, b: NetworkLayout) -> bool {
    &&& b.layers_view() == a.layers_view()
    &&& b.neurons_view().len() == a.neurons_view().len()
    &&& forall|i: int|
        0 <= i < a.neurons_view().len() ==> (#[trigger] b.neurons_view()[i]).bias
            == a.neurons_view()[i].bias && b.neurons_view()[i].value == a.neurons_view()[i].value
            && b.neurons_view()[i].inputs.len() == a.neurons_view()[i].inputs.len()
}

/// A genome whose records each come, position by position, from one of two
/// well-formed genomes that share their layer lists is well-formed itself.
pub proof fn lemma_mixed_wf(a: NetworkLayout, b: NetworkLayout, r: NetworkLayout)
    requires
        a.wf(),
        b.wf(),
        b.layers_view() == a.layers_view(),
        r.layers_view() == a.layers_view(),
        r.neurons_view().len() == a.neurons_view().len(),
        forall|i: int|
            0 <= i < r.neurons_view().len() ==> #[trigger] r.neurons_view()[i] == a.neurons_view()[i]
                || r.neurons_view()[i] == b.neurons_view()[i],
    ensures
        r.wf(),
{
    let ls = a.layers_view();
    assert(b.neurons_view().len() == a.neurons_view().len()) by {
        assert(a.layer_base(ls.len() as int) == b.layer_base(ls.len() as int)) by {
            crate::network::lemma_layer_base_same_rows(a, b, ls.len() as int);
        }
    }
    assert forall|l: int| 0 <= l implies #[trigger] r.layer_base(l) == a.layer_base(l) by {
        crate::network::lemma_layer_base_same_rows(a, r, l);
    }
    assert forall|l: int, j: int| 0 <= l < ls.len() && 0 <= j < ls[l].len() implies (
    #[trigger] ls[l][j]) < r.neurons_view().len() && ls[l][j] == r.layer_base(l) + j by {
        a.lemma_wf_indices(l, j);
    }
}

/// A genome with the shape of a well-formed one — only weight values may
/// differ — is well-formed itself.
pub proof fn lemma_same_shape_wf(a: NetworkLayout, r: NetworkLayout)
    requires
        a.wf(),
        same_shape(a, r),
    ensures
        r.wf(),
{
    let ls = a.layers_view();
    assert forall|l: int| 0 <= l implies #[trigger] r.layer_base(l) == a.layer_base(l) by {
        crate::network::lemma_layer_base_same_rows(a, r, l);
    }
    assert forall|l: int, j: int| 0 <= l < ls.len() && 0 <= j < ls[l].len() implies (
    #[trigger] ls[l][j]) < r.neurons_view().len() && ls[l][j] == r.layer_base(l) + j by {
        a.lemma_wf_indices(l, j);
    }
}

/// What one breeding step leaves behind, given what the two sources handed
/// out while it ran: `r0` and `r1` are the crossover of `p0` and `p1` —
/// the records before the halfway split point swapped — with their weights
/// then mutated as `flips` and `draws` dictate, reading both genomes'
/// weights as one stream, first genome first.
pub open spec fn evolved_from(
    p0: NetworkLayout,
    p1: NetworkLayout,
    r0: NetworkLayout,
    r1: NetworkLayout,
    flips: Seq<bool>,
    draws: Seq<u64>,
) -> bool {
    let len = p0.neurons_view().len() as int;
    let k = len / 2;
    let c0 = p1.neurons_view().subrange(0, k) + p0.neurons_view().subrange(k, len);
    let c1 = p0.neurons_view().subrange(0, k) + p1.neurons_view().subrange(k, len);
    &&& r0.layers_view() == p0.layers_view()
    &&& r1.layers_view() == p1.layers_view()
    &&& r0.neurons_view().len() == len
    &&& r1.neurons_view().len() == len
    &&& forall|i: int|
        0 <= i < len ==> (#[trigger] r0.neurons_view()[i]).bias == c0[i].bias
            && r0.neurons_view()[i].value == c0[i].value && r0.neurons_view()[i].inputs.len()
            == c0[i].inputs.len()
    &&& forall|i: int|
        0 <= i < len ==> (#[trigger] r1.neurons_view()[i]).bias == c1[i].bias
            && r1.neurons_view()[i].value == c1[i].value && r1.neurons_view()[i].inputs.len()
            == c1[i].inputs.len()
    &&& mutated_weights(
        concat_inputs(c0) + concat_inputs(c1),
        concat_inputs(r0.neurons_view()) + concat_inputs(r1.neurons_view()),
        flips,
        draws,
    )
}

/// One breeding step takes exactly one decision per weight of the two
/// parents, and one draw per positive decision: the two children together
/// carry as many weights as the two parents together.
pub proof fn lemma_evolved_from_lengths(
    p0: NetworkLayout,
    p1: NetworkLayout,
    r0: NetworkLayout,
    r1: NetworkLayout,
    flips: Seq<bool>,
    draws: Seq<u64>,
)
    requires
        evolved_from(p0, p1, r0, r1, flips, draws),
        p1.neurons_view().len() == p0.neurons_view().len(),
    ensures
        flips.len() == concat_inputs(p0.neurons_view()).len() + concat_inputs(
            p1.neurons_view(),
        ).len(),
        draws.len() == count_true(flips),
{
    let len = p0.neurons_view().len() as int;
    let k = len / 2;
    let c0 = p1.neurons_view().subrange(0, k) + p0.neurons_view().subrange(k, len);
    let c1 = p0.neurons_view().subrange(0, k) + p1.neurons_view().subrange(k, len);
    crate::neuron::lemma_concat_inputs_split(p0.neurons_view(), k);
    crate::neuron::lemma_concat_inputs_split(p1.neurons_view(), k);
    crate::neuron::lemma_concat_inputs_append(
        p1.neurons_view().subrange(0, k),
        p0.neurons_view().subrange(k, len),
    );
    crate::neuron::lemma_concat_inputs_append(
        p0.neurons_view().subrange(0, k),
        p1.neurons_view().subrange(k, len),
    );
}

/// An exact copy of one genome.
pub fn duplicate_layout(layout: &NetworkLayout) -> (r: NetworkLayout)
    ensures
        r.neurons_view() == layout.neurons_view(),
        r.layers_view() == layout.layers_view(),
{
    let r = spliced(layout, layout, 0);
    proof {
        let len = layout.neurons@.len() as int;
        assert(r.neurons_view() =~= layout.neurons_view());
    }
    r
}

/// Runs the per-weight mutation over every neuron of one genome, in
/// creation order.
fn mutate_layout<R: RandomProvider, D: MutationDecider>(
    layout: &NetworkLayout,
    randomizer: &mut R,
    decider: &mut D,
    mutation_probability: u64,
) -> (r: NetworkLayout)
    ensures
        same_shape(*layout, r),
        mutated_weights(
            concat_inputs(layout.neurons_view()),
            concat_inputs(r.neurons_view()),
            final(decider).decided().skip(old(decider).decided().len() as int),
            final(randomizer).drawn().skip(old(randomizer).drawn().len() as int),
        ),
        final(decider).decided().len() >= old(decider).decided().len(),
        final(randomizer).drawn().len() >= old(randomizer).drawn().len(),
        final(decider).decided().take(old(decider).decided().len() as int) == old(
            decider,
        ).decided(),
        final(randomizer).drawn().take(old(randomizer).drawn().len() as int) == old(
            randomizer,
        ).drawn(),
{
    let ghost pre_dec = decider.decided();
    let ghost pre_drawn = randomizer.drawn();
    let mut neurons: Vec<Neuron> = Vec::new();
    let mut k: usize = 0;
    while k < layout.neurons.len()
        invariant
            k <= layout.neurons@.len(),
            neurons@.len() == k,
            pre_dec.len() <= decider.decided().len(),
            pre_drawn.len() <= randomizer.drawn().len(),
            forall|i: int|
                0 <= i < k ==> (#[trigger] neuron_views(neurons@)[i]).bias == neuron_views(
                    layout.neurons@,
                )[i].bias && neuron_views(neurons@)[i].value == neuron_views(layout.neurons@)[i].value
                && neuron_views(neurons@)[i].inputs.len() == neuron_views(
                    layout.neurons@,
                )[i].inputs.len(),
            decider.decided().take(pre_dec.len() as int) == pre_dec,
            randomizer.drawn().take(pre_drawn.len() as int) == pre_drawn,
            mutated_weights(
                concat_inputs(neuron_views(layout.neurons@.take(k as int))),
                concat_inputs(neuron_views(neurons@)),
                decider.decided().skip(pre_dec.len() as int),
                randomizer.drawn().skip(pre_drawn.len() as int),
            ),
        decreases layout.neurons@.len() - k,
    {
        let ghost o_mid = concat_inputs(neuron_views(layout.neurons@.take(k as int)));
        let ghost n_mid = concat_inputs(neuron_views(neurons@));
        let ghost f_mid = decider.decided().skip(pre_dec.len() as int);
        let ghost d_mid = randomizer.drawn().skip(pre_drawn.len() as int);
        let ghost mid_dec = decider.decided();
        let ghost mid_drawn = randomizer.drawn();
        let source = &layout.neurons[k];
        let new_inputs = mutate_weights(&source.inputs, randomizer, decider, mutation_probability);
        let replacement = Neuron { value: source.value, bias: source.bias, inputs: new_inputs };
        let ghost old_neurons = neurons@;
        neurons.push(replacement);
        k = k + 1;
        proof {
            let f_k = decider.decided().skip(mid_dec.len() as int);
            let d_k = randomizer.drawn().skip(mid_drawn.len() as int);
            lemma_history_split(pre_dec.len() as int, mid_dec, decider.decided());
            lemma_history_split(pre_drawn.len() as int, mid_drawn, randomizer.drawn());
            assert(decider.decided().take(pre_dec.len() as int) == pre_dec);
            assert(randomizer.drawn().take(pre_drawn.len() as int) == pre_drawn);
            lemma_mutated_append(
                o_mid,
                n_mid,
                f_mid,
                d_mid,
                source.inputs@,
                new_inputs@,
                f_k,
                d_k,
            );
            assert(neuron_views(layout.neurons@.take(k as int)) =~= neuron_views(
                layout.neurons@.take(k as int - 1),
            ).push(layout.neurons@[k as int - 1]@));
            crate::neuron::lemma_concat_inputs_push(
                neuron_views(layout.neurons@.take(k as int - 1)),
                layout.neurons@[k as int - 1]@,
            );
            assert(neuron_views(neurons@) =~= neuron_views(old_neurons).push(replacement@));
            crate::neuron::lemma_concat_inputs_push(neuron_views(old_neurons), replacement@);
            assert(concat_inputs(neuron_views(layout.neurons@.take(k as int))) =~= o_mid
                + source.inputs@);
            assert(concat_inputs(neuron_views(neurons@)) =~= n_mid + new_inputs@);
        }
    }
    proof {
        assert(layout.neurons@.take(layout.neurons@.len() as int) =~= layout.neurons@);
    }
    let layers = clone_rows(&layout.layers);
    let r = NetworkLayout { neurons, layers };
    proof {
        assert(r.layers_view() =~= layout.layers_view());
    }
    r
}

/// Probabilistic per-weight mutation over a pair of genomes.
///
/// For every connection weight of every neuron of both genomes, in order —
/// first genome first, neurons in creation order, weights in position order
/// — one decision is taken from `decider`; where it says "mutate" the
/// weight is replaced outright by one fresh draw from `randomizer`, and
/// otherwise left alone. Bias markers, cached values and the whole topology
/// are untouched.
pub fn mutate<R: RandomProvider, D: MutationDecider>(
    parents: [NetworkLayout; 2],
    randomizer: &mut R,
    decider: &mut D,
    mutation_probability: u64,
) -> (r: (NetworkLayout, NetworkLayout))
    ensures
        same_shape(parents@[0], r.0),
        same_shape(parents@[1], r.1),
        mutated_weights(
            concat_inputs(parents@[0].neurons_view()) + concat_inputs(parents@[1].neurons_view()),
            concat_inputs(r.0.neurons_view()) + concat_inputs(r.1.neurons_view()),
            final(decider).decided().skip(old(decider).decided().len() as int),
            final(randomizer).drawn().skip(old(randomizer).drawn().len() as int),
        ),
        final(decider).decided().len() >= old(decider).decided().len(),
        final(randomizer).drawn().len() >= old(randomizer).drawn().len(),
        final(decider).decided().take(old(decider).decided().len() as int) == old(
            decider,
        ).decided(),
        final(randomizer).drawn().take(old(randomizer).drawn().len() as int) == old(
            randomizer,
        ).drawn(),
{
    let ghost pre_dec = decider.decided();
    let ghost pre_drawn = randomizer.drawn();
    let first = mutate_layout(&parents[0], randomizer, decider, mutation_probability);
    let ghost mid_dec = decider.decided();
    let ghost mid_drawn = randomizer.drawn();
    let second = mutate_layout(&parents[1], randomizer, decider, mutation_probability);
    proof {
        let f1 = mid_dec.skip(pre_dec.len() as int);
        let d1 = mid_drawn.skip(pre_drawn.len() as int);
        let f2 = decider.decided().skip(mid_dec.len() as int);
        let d2 = randomizer.drawn().skip(mid_drawn.len() as int);
        lemma_history_split(pre_dec.len() as int, mid_dec, decider.decided());
        lemma_history_split(pre_drawn.len() as int, mid_drawn, randomizer.drawn());
        assert(decider.decided().take(pre_dec.len() as int) == pre_dec);
        assert(randomizer.drawn().take(pre_drawn.len() as int) == pre_drawn);
        lemma_mutated_append(
            concat_inputs(parents@[0].neurons_view()),
            concat_inputs(first.neurons_view()),
            f1,
            d1,
            concat_inputs(parents@[1].neurons_view()),
            concat_inputs(second.neurons_view()),
            f2,
            d2,
        );
    }
    (first, second)
}

/// Deterministic single-point recombination.
///
/// The split point is half the first parent's neuron count. The children
/// are full copies of the parents with the neuron records before the split
/// swapped between them; records at or past the split, and both layer
/// lists, are left as they were. Both parents must share one topology —
/// recombination across differing shapes is unsupported.
pub fn crossover(parents: &[NetworkLayout; 2]) -> (r: [NetworkLayout; 2])
    requires
        parents@[0].neurons@.len() == parents@[1].neurons@.len(),
    ensures
        ({
            let len = parents@[0].neurons@.len() as int;
            let k = len / 2;
            &&& r@[0].neurons_view() == parents@[1].neurons_view().subrange(0, k) + parents@[
                0
            ].neurons_view().subrange(k, len)
            &&& r@[1].neurons_view() == parents@[0].neurons_view().subrange(0, k) + parents@[
                1
            ].neurons_view().subrange(k, len)
            &&& r@[0].layers_view() == parents@[0].layers_view()
            &&& r@[1].layers_view() == parents@[1].layers_view()
        }),
{
    let crossover_point = parents[0].neurons.len() / 2;
    let offspring_1 = spliced(&parents[1], &parents[0], crossover_point);
    let offspring_2 = spliced(&parents[0], &parents[1], crossover_point);
    [offspring_1, offspring_2]
}

/// A copy of `tail`'s genome whose first `k` neuron records come from
/// `head` instead.
fn spliced(head: &NetworkLayout, tail: &NetworkLayout, k: usize) -> (r: NetworkLayout)
    requires
        k <= head.neurons@.len(),
        k <= tail.neurons@.len(),
    ensures
        r.neurons_view() == head.neurons_view().subrange(0, k as int) + tail.neurons_view()
            .subrange(k as int, tail.neurons@.len() as int),
        r.layers_view() == tail.layers_view(),
{
    let mut neurons: Vec<Neuron> = Vec::new();
    let mut i: usize = 0;
    while i < k
        invariant
            i <= k,
            k <= head.neurons@.len(),
            neurons@.len() == i,
            forall|t: int|
                0 <= t < i ==> #[trigger] neuron_views(neurons@)[t] == head.neurons_view()[t],
        decreases k - i,
    {
        let ghost old_neurons = neurons@;
        let nn = head.neurons[i].duplicate();
        neurons.push(nn);
        i = i + 1;
        proof {
            assert(neuron_views(neurons@) =~= neuron_views(old_neurons).push(nn@));
        }
    }
    let mut i: usize = k;
    while i < tail.neurons.len()
        invariant
            k <= i <= tail.neurons@.len(),
            k <= head.neurons@.len(),
            neurons@.len() == i,
            forall|t: int|
                0 <= t < k ==> #[trigger] neuron_views(neurons@)[t] == head.neurons_view()[t],
            forall|t: int|
                k <= t < i ==> #[trigger] neuron_views(neurons@)[t] == tail.neurons_view()[t],
        decreases tail.neurons@.len() - i,
    {
        let ghost old_neurons = neurons@;
        let nn = tail.neurons[i].duplicate();
        neurons.push(nn);
        i = i + 1;
        proof {
            assert(neuron_views(neurons@) =~= neuron_views(old_neurons).push(nn@));
        }
    }
    let ghost all = neurons@;
    let layers = clone_rows(&tail.layers);
    let r = NetworkLayout { neurons, layers };
    proof {
        assert(r.layers_view() =~= tail.layers_view());
        assert(r.neurons@ == all);
        crate::neuron::lemma_neuron_views_index(all);
        assert forall|t: int| 0 <= t < all.len() implies #[trigger] r.neurons_view()[t]
            == neuron_views(all)[t] by {
            assert(r.neurons_view()[t] == all[t]@);
        }
        assert(r.neurons_view() =~= head.neurons_view().subrange(0, k as int)
            + tail.neurons_view().subrange(k as int, tail.neurons@.len() as int));
    }
    r
}

/// Copies a list of layer rows verbatim.
pub(crate) fn clone_rows(v: &Vec<Vec<usize>>) -> (r: Vec<Vec<usize>>)
    ensures
        r@.len() == v@.len(),
        forall|i: int| 0 <= i < v@.len() ==> (#[trigger] r@[i])@ == v@[i]@,
{
    let mut r: Vec<Vec<usize>> = Vec::new();
    let mut i: usize = 0;
    while i < v.len()
        invariant
            i <= v@.len(),
            r@.len() == i,
            forall|t: int| 0 <= t < i ==> (#[trigger] r@[t])@ == v@[t]@,
        decreases v@.len() - i,
    {
        r.push(crate::layer::clone_indices(&v[i]));
        i = i + 1;
    }
    r
}

/// Up to any position, the count so far plus the decision there is at most
/// the whole count.
pub proof fn lemma_count_true_take_rest(s: Seq<bool>, t: int)
    requires
        0 <= t < s.len(),
    ensures
        count_true(s) >= count_true(s.take(t)) + if s[t] {
            1int
        } else {
            0int
        },
{
    assert(s =~= s.take(t + 1) + s.skip(t + 1));
    lemma_count_true_append(s.take(t + 1), s.skip(t + 1));
    assert(s.take(t + 1).drop_last() =~= s.take(t));
    assert(s.take(t + 1).last() == s[t]);
    lemma_count_true_bounds(s.skip(t + 1));
}

} // verus!
