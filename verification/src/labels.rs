//! Node labels for extended trees: a real label or the padding sentinel.

use vstd::prelude::*;

verus! {

/// Reserved sentinel value used for padding positions when a pq-gram is
/// flattened into a plain `i64` sequence. It is an arbitrary fixed
/// constant rather than `0`, since `0` is a perfectly legitimate label.
/// A real label equal to this value is reported as a collision instead
/// of being silently confused with padding.
pub const FILLER_RANDOM_INT: i64 = 6888428148507855167;

/// A label in an extended tree: either the padding sentinel standing in
/// for a node that does not exist, or the label of a real node. Keeping
/// the distinction in the type rules out any confusion between padding
/// and a real label that happens to equal the sentinel constant.
#[derive(Clone, Copy, PartialEq, Eq, Structural, Debug)]
pub enum Label {
    /// Padding for a position where the original tree has no node.
    Filler,
    /// The label of a real node.
    Real(i64),
}

/// The `i64` a label turns into when a pq-gram is flattened: padding
/// positions carry the reserved sentinel value.
pub open spec fn flat_label(l: Label, filler_as: i64) -> i64 {
    match l {
        Label::Filler => filler_as,
        Label::Real(x) => x,
    }
}

} // verus!
