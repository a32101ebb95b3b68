use vstd::prelude::*;

verus! {

/// Typed failures of the library.
///
/// Configuration problems are reported eagerly by constructors and are
/// recoverable by retrying with corrected parameters; the evaluation-time
/// variants signal misuse of `fire`/`get_output`, and `NoSelectionError`
/// signals that a learning session ended without ever selecting parents.
#[derive(Clone, Copy, Debug, PartialEq, Eq, Structural)]
pub enum Error {
    /// Bad population size or topology handed to a constructor.
    ConfigurationError,
    /// The number of input values does not match the first layer.
    ShapeMismatchError,
    /// The network has no layers at all.
    EmptyNetworkError,
    /// A neuron value was read before it was ever computed.
    UncomputedValueError,
    /// A learning session finished without producing a parent pair.
    NoSelectionError,
    /// The requested finish condition is not implemented.
    UnsupportedFinishError,
}

} // verus!
