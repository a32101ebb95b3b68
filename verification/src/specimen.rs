use vstd::prelude::*;
use crate::arith::Arithmetic;
use crate::error::Error;
use crate::network::{fired, layer_values, same_structure, Network};

verus! {

/// Status of a specimen, as reported by the world.
pub enum SpecimenStatus {
    /// The specimen is still alive, with the given running fitness.
    ALIVE(u64),
    /// The specimen is dead, with its final fitness. A dead specimen ends
    /// the episode.
    DEAD(u64),
}

/// A live network plus the fitness its last episode earned: one slot of the
/// population the evolutionary loop manages.
pub struct Specimen<A: Arithmetic> {
    /// The network this specimen runs.
    pub brain: Network<A>,
    /// The fitness of the most recent episode, as an opaque scalar.
    pub fitness: u64,
}

impl<A: Arithmetic> Specimen<A> {
    /// One exchange with the world: fires the brain on the world's state
    /// and returns the network's output, the values of the last layer.
    ///
    /// On success the output is exactly the evaluation of the genome on the
    /// given input; the errors are those of `fire`, and they leave the
    /// specimen as it was.
    pub fn tick(&mut self, world_input: &Vec<u64>) -> (r: Result<Vec<u64>, Error>)
        requires
            old(self).brain.layout.wf(),
        ensures
            final(self).fitness == old(self).fitness,
            final(self).brain.arith == old(self).brain.arith,
            final(self).brain.layout.wf(),
            match r {
                Ok(out) => {
                    let layout = old(self).brain.layout;
                    let arith = old(self).brain.arith;
                    let last = layout.layers_view().len() - 1;
                    &&& layout.layers_view().len() > 0
                    &&& world_input@.len() == layout.input_width()
                    &&& same_structure(layout, final(self).brain.layout)
                    &&& fired(layout, final(self).brain.layout, arith, world_input@)
                    &&& out@ == layer_values(layout, arith, world_input@, last)
                },
                Err(Error::EmptyNetworkError) => {
                    &&& old(self).brain.layout.layers_view().len() == 0
                    &&& *final(self) == *old(self)
                },
                Err(Error::ShapeMismatchError) => {
                    &&& old(self).brain.layout.layers_view().len() > 0
                    &&& world_input@.len() != old(self).brain.layout.input_width()
                    &&& *final(self) == *old(self)
                },
                Err(_) => false,
            },
    {
        let ghost layout = self.brain.layout;
        let ghost arith = self.brain.arith;
        match self.brain.fire(world_input) {
            Err(e) => Err(e),
            Ok(()) => {
                proof {
                    let last = layout.layers_view().len() - 1;
                    layout.lemma_row_facts(last);
                }
                match self.brain.get_output() {
                    Ok(out) => {
                        proof {
                            let last = layout.layers_view().len() - 1;
                            let row = layout.layers_view()[last];
                            assert(self.brain.layout.layers_view() == layout.layers_view());
                            assert forall|j: int| 0 <= j < row.len() implies out@[j] == layer_values(
                                layout,
                                arith,
                                world_input@,
                                last,
                            )[j] by {
                                assert(self.brain.layout.neurons_view()[#[trigger] row[j] as int].value
                                    == Some(layer_values(layout, arith, world_input@, last)[j]));
                            }
                            assert(out@ =~= layer_values(layout, arith, world_input@, last));
                        }
                        Ok(out)
                    },
                    Err(e) => {
                        proof {
                            let last = layout.layers_view().len() - 1;
                            let row = layout.layers_view()[last];
                            assert(self.brain.layout.layers_view() == layout.layers_view());
                            let j = choose|j: int|
                                0 <= j < row.len() && self.brain.layout.neurons_view()[
                                    #[trigger] row[j] as int
                                ].value is None;
                            assert(self.brain.layout.neurons_view()[row[j] as int].value == Some(
                                layer_values(layout, arith, world_input@, last)[j],
                            ));
                            assert(false);
                        }
                        Err(e)
                    },
                }
            },
        }
    }
}

} // verus!
