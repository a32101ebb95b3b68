use vstd::prelude::*;
use vstd::wrapping::u64_specs;

verus! {

/// Scalar arithmetic and activation used by the forward-evaluation engine.
///
/// The network carries every scalar — connection weight, neuron value,
/// fitness — as an opaque 64-bit pattern and never interprets the pattern
/// itself. An implementation of this trait supplies the meaning of those
/// patterns: the usual choice outside the library reads each one as an
/// IEEE-754 binary64 value, with `activate` the logistic sigmoid (or the
/// identity, useful for checking exact linear combinations). The spec
/// functions name the results of the operations, so the engine's contracts
/// can state every computed neuron value as a closed-form expression over
/// the implementation's own operations.
pub trait Arithmetic: Sized {
    /// The additive identity that starts every weighted sum.
    ///
    /// The defaults of these four spec functions stand in for arithmetics
    /// implemented outside the verifier's sight; a verified arithmetic
    /// gives its own.
    open spec fn spec_zero(&self) -> u64 {
        0
    }

    /// The fixed output of a bias neuron.
    open spec fn spec_one(&self) -> u64 {
        1
    }

    /// One step of a weighted sum: `acc` plus `weight` times `value`.
    open spec fn spec_mul_add(&self, acc: u64, weight: u64, value: u64) -> u64 {
        acc
    }

    /// The activation function applied to a finished weighted sum.
    open spec fn spec_activate(&self, x: u64) -> u64 {
        x
    }

    fn zero(&self) -> (r: u64)
        ensures
            r == self.spec_zero(),
    ;

    fn one(&self) -> (r: u64)
        ensures
            r == self.spec_one(),
    ;

    fn mul_add(&self, acc: u64, weight: u64, value: u64) -> (r: u64)
        ensures
            r == self.spec_mul_add(acc, weight, value),
    ;

    fn activate(&self, x: u64) -> (r: u64)
        ensures
            r == self.spec_activate(x),
    ;
}

/// Plain unsigned integer arithmetic: sums and products wrap around modulo
/// two to the sixty-fourth power, and the activation is the identity.
///
/// Every operation is verified against its spec, which makes this
/// implementation a convenient deterministic scalar model for exercising the
/// engine and the evolutionary loop.
#[derive(Clone, Copy, Debug, PartialEq, Eq, Structural)]
pub struct WrappingArithmetic;

impl Arithmetic for WrappingArithmetic {
    open spec fn spec_zero(&self) -> u64 {
        0
    }

    open spec fn spec_one(&self) -> u64 {
        1
    }

    open spec fn spec_mul_add(&self, acc: u64, weight: u64, value: u64) -> u64 {
        u64_specs::wrapping_add(acc, u64_specs::wrapping_mul(weight, value))
    }

    open spec fn spec_activate(&self, x: u64) -> u64 {
        x
    }

    fn zero(&self) -> (r: u64) {
        0
    }

    fn one(&self) -> (r: u64) {
        1
    }

    fn mul_add(&self, acc: u64, weight: u64, value: u64) -> (r: u64) {
        acc.wrapping_add(weight.wrapping_mul(value))
    }

    fn activate(&self, x: u64) -> (r: u64) {
        x
    }
}

} // verus!
