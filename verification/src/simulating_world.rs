use vstd::prelude::*;
use crate::simulation::SimulationStatus;

verus! {

/// A structure that runs the logic the network is trained against.
///
/// The trainer drives the following feedback loop for every specimen of
/// every generation: ask the world for its current state, pass that state
/// to the network, let the network respond, hand the response back through
/// `tick`, and repeat until the world declares the specimen dead and prices
/// its run with a fitness value. Nothing is assumed here about what a world
/// answers: the training loop is verified to cope with every reply.
pub trait SimulatingWorld: Sized {
    /// A fresh world for one specimen's episode.
    fn new() -> Self;

    /// Feeds the network's response to the world; the returned status says
    /// whether the specimen lives on, and with what fitness it died.
    fn tick(&mut self, input: &Vec<u64>) -> SimulationStatus;

    /// The world's current state, used as the network's next input.
    fn get_world_state(&self) -> Vec<u64>;
}

} // verus!
