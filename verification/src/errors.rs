use vstd::prelude::*;

verus! {

/// Errors that abort a generalization stage invocation.
#[derive(Clone, Copy, PartialEq, Eq, Structural, Debug)]
pub enum Error {
    /// The corpus holds no loadable entry at this index.
    KeyNotFound(usize),
    /// The testcase at this index carries no novelty metadata.
    MetadataNotFound(usize),
    /// The named map observer is absent on the executor.
    ObserverNotFound,
}

} // verus!
