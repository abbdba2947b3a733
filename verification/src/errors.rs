//! Errors reported by profile extraction and batch comparison.

use vstd::prelude::*;

verus! {

/// What can go wrong while profiling trees. Distance computation over
/// well-formed profiles is total and never fails.
#[derive(Clone, Copy, PartialEq, Eq, Structural, Debug)]
pub enum PqgramError {
    /// The shape parameters are outside the supported range: `p` and `q`
    /// must both be at least 1.
    InvalidShape,
    /// A real label of the tree at position `index` of the input
    /// collection equals the reserved padding sentinel, so a flattened
    /// profile would be ambiguous.
    LabelCollision {
        /// Zero-based position of the offending tree in the input.
        index: usize,
        /// The colliding label value.
        label: i64,
    },
}

} // verus!
