//! The ways in which the pages of a service are kept on disk.

use vstd::prelude::*;

verus! {

/// How a service keeps its pages below the directory of a model.
#[derive(Debug, Clone, PartialEq, Eq)]
pub enum ServiceProvider {
    /// Encoded pages in the directory `neuroscope`.
    Neuroscope,
    /// Ready-made JSON files in the directory `path`.
    Json { path: String },
}

} // verus!
