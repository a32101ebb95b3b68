use vstd::prelude::*;
use crate::arith::Arithmetic;

verus! {

/// An environment that exercises one specimen at a time.
///
/// The trainer hands each specimen of its population to the world in turn;
/// the world runs whatever episode it likes against the specimen's brain
/// and may update the specimen's fitness. Nothing is assumed about what it
/// does.
pub trait World<A: Arithmetic>: Sized {
    /// A fresh world.
    fn new() -> Self;

    /// Runs one specimen through the world's paces.
    fn release_specimen(&mut self, specimen: &mut crate::trainer::Specimen<A>);
}

} // verus!
