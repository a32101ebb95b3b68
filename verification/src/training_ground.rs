use vstd::prelude::*;
use crate::arith::Arithmetic;
use crate::error::Error;
use crate::network::{layer_values, Network};
use crate::Specimen;

verus! {

/// Holds a trained specimen to be tested against fresh inputs, outside any
/// learning loop.
pub struct Exercise {
    specimen: Specimen,
}

impl Exercise {
    /// The specimen under exercise.
    pub closed spec fn spec_specimen(&self) -> Specimen {
        self.specimen
    }

    /// Creates a new exercise for the given specimen, keeping its own copy.
    pub fn new(specimen: &Specimen) -> (r: Exercise)
        ensures
            r.spec_specimen().brain.neurons_view() == specimen.brain.neurons_view(),
            r.spec_specimen().brain.layers_view() == specimen.brain.layers_view(),
            r.spec_specimen().fitness == specimen.fitness,
    {
        Exercise {
            specimen: Specimen {
                brain: crate::genetic::duplicate_layout(&specimen.brain),
                fitness: specimen.fitness,
            },
        }
    }

    /// Fires the specimen's network on the given inputs under the given
    /// arithmetic and yields the first output value: the value of the
    /// first neuron of the last layer.
    pub fn get_output<A: Arithmetic + Copy>(&self, inputs: &Vec<u64>, activator: A) -> (r: Result<
        u64,
        Error,
    >)
        requires
            self.spec_specimen().brain.wf(),
        ensures
            ({
                let layout = self.spec_specimen().brain;
                let layer_count = layout.layers_view().len();
                match r {
                    Ok(v) => {
                        &&& layer_count > 0
                        &&& inputs@.len() == layout.input_width()
                        &&& layout.layers_view()[layer_count - 1].len() > 0
                        &&& v == layer_values(layout, activator, inputs@, layer_count - 1)[0]
                    },
                    Err(Error::EmptyNetworkError) => layer_count == 0 || (layer_count > 0
                        && inputs@.len() == layout.input_width() && layout.layers_view()[layer_count
                        - 1].len() == 0),
                    Err(Error::ShapeMismatchError) => layer_count > 0 && inputs@.len()
                        != layout.input_width(),
                    Err(_) => false,
                }
            }),
    {
        let mut net = Network {
            layout: crate::genetic::duplicate_layout(&self.specimen.brain),
            arith: activator,
        };
        proof {
            crate::network::lemma_wf_congruent(self.spec_specimen().brain, net.layout);
        }
        let ghost entry = net.layout;
        match net.fire(inputs) {
            Err(e) => Err(e),
            Ok(()) => {
                match net.get_output() {
                    Err(e) => {
                        proof {
                            let last = entry.layers_view().len() - 1;
                            let row = entry.layers_view()[last];
                            assert(net.layout.layers_view() == entry.layers_view());
                            if row.len() > 0 {
                                let j = choose|j: int|
                                    0 <= j < row.len() && net.layout.neurons_view()[
                                        #[trigger] row[j] as int
                                    ].value is None;
                                assert(net.layout.neurons_view()[row[j] as int].value == Some(
                                    layer_values(entry, activator, inputs@, last)[j],
                                ));
                                assert(false);
                            }
                        }
                        Err(Error::EmptyNetworkError)
                    },
                    Ok(out) => {
                        if out.len() == 0 {
                            return Err(Error::EmptyNetworkError);
                        }
                        proof {
                            let last = entry.layers_view().len() - 1;
                            let row = entry.layers_view()[last];
                            assert(net.layout.layers_view() == entry.layers_view());
                            assert(net.layout.neurons_view()[row[0] as int].value == Some(
                                layer_values(entry, activator, inputs@, last)[0],
                            ));
                            assert(out@[0] == layer_values(entry, activator, inputs@, last)[0]);
                            crate::network::lemma_layer_values_congruent(
                                self.spec_specimen().brain,
                                entry,
                                activator,
                                inputs@,
                                last,
                            );
                        }
                        Ok(out[0])
                    },
                }
            },
        }
    }
}

} // verus!
