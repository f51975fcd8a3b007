use vstd::prelude::*;

use crate::inputs::GeneralizedInput;

verus! {

/// A corpus entry: an input, if loadable, and the set of coverage-map
/// indices the input was shown to newly cover.
pub struct Testcase {
    pub input: Option<GeneralizedInput>,
    pub novelties: Option<Vec<usize>>,
}

/// The fuzzer state the stage touches: the corpus of testcases, and the
/// running count of target executions.
pub struct FuzzState {
    pub corpus: Vec<Testcase>,
    pub executions: u64,
}

impl FuzzState {
    /// An empty state: no testcases, no executions yet.
    pub fn new() -> (r: Self)
        ensures
            r.corpus@ == Seq::<Testcase>::empty(),
            r.executions == 0,
    {
        FuzzState { corpus: Vec::new(), executions: 0 }
    }
}

} // verus!
