//! Structural similarity between ordered, labeled trees via pq-gram
//! profiles: a tree is fingerprinted as a multiset of fixed-shape label
//! tuples, and two trees are compared through the normalized bag
//! intersection of their fingerprints.

pub mod batch;
pub mod distance;
pub mod errors;
pub mod labels;
pub mod profile;
pub mod tree;

pub use batch::{compare_many_to_many, compare_matrix, compare_one_to_many, profile_trees};
pub use distance::{pqgram_distance, Distance};
pub use errors::PqgramError;
pub use labels::{Label, FILLER_RANDOM_INT};
pub use profile::{pqgram_profile, PQGram};
pub use tree::{tree_build, tree_build_with_map, SourceNode, Tree};
