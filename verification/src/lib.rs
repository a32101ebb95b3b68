//! A small feedforward-neural-network substrate paired with a
//! genetic-algorithm trainer.
//!
//! The library builds layered, fully connected networks of weighted
//! connections ([`network`]), evaluates them forward layer by layer, and
//! evolves a population of them against an externally supplied world
//! ([`simulation`]): fitness-based parent selection, single-point
//! crossover and per-weight mutation ([`genetic`]), generation after
//! generation.
//!
//! Every scalar — weight, neuron value, fitness — is carried as an opaque
//! 64-bit pattern; the caller supplies the arithmetic and the activation
//! function through the [`arith::Arithmetic`] trait (typically IEEE-754
//! binary64 operations with the logistic sigmoid), the random draws
//! through [`randomizer::RandomProvider`], and the mutation coin through
//! [`genetic::MutationDecider`]. With deterministic sources, whole
//! training runs are reproducible, and the library's contracts state the
//! outcome of every step exactly.

use vstd::prelude::*;

pub mod arith;
pub mod error;
pub mod genetic;
pub mod layer;
pub mod network;
pub mod neuron;
pub mod neuron_repository;
pub mod randomizer;
pub mod simulating_world;
pub mod simulation;
pub mod specimen;
pub mod trainer;
pub mod training_ground;
pub mod world;

use crate::network::NetworkLayout;

verus! {

/// Smallest population a simulation will accept.
pub const MINIMUM_POPULATION_SIZE: usize = 4;

/// The per-weight mutation probability used when none is given: the bit
/// pattern of the binary64 value one tenth.
pub const DEFAULT_MUTATION_PROBABILITY: u64 = 0x3FB9_9999_9999_999A;

/// Specimen is used to exchange neural network data with the outside
/// world: a genome plus the fitness it earned, as plain data.
///
/// This is the struct for transferring trained network instances into and
/// out of the library — resuming a session from saved parents, or re-firing
/// a trained genome against fresh inputs.
#[derive(Clone, Debug, PartialEq)]
pub struct Specimen {
    /// The genome.
    pub brain: NetworkLayout,
    /// The fitness attached to it.
    pub fitness: u64,
}

} // verus!

