//! A coverage-preserving input generalization stage for a coverage-guided
//! fuzzer: it shrinks a byte string by speculatively deleting ranges,
//! re-running the target, and keeping only deletions that preserve an
//! observed set of coverage novelties.
#![verifier::loop_isolation(false)]

pub mod corpus;
pub mod drcov;
pub mod errors;
pub mod executors;
pub mod generalization;
pub mod inputs;
pub mod payload;
pub mod stats;
