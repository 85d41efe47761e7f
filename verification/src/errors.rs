//! Failure conditions of the analysis.

use vstd::prelude::*;

verus! {

/// How an analysis run can fail.
///
/// All other negative outcomes (an exported symbol absent from the graph, a
/// search branch exhausting its depth budget) are ordinary results, not
/// errors.
#[derive(Clone, Copy, Debug, PartialEq, Eq, Structural)]
pub enum AnalysisError {
    /// The call-graph text lacks an expected grammar marker at an expected
    /// structural position: the producer's output is malformed or
    /// incompatible.
    Format,
    /// The abort/unwind entry's label does not occur in the call-graph text,
    /// so no analysis is possible.
    RootNotFound,
}

} // verus!
