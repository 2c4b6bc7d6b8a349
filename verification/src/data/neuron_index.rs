//! The position of a neuron inside a model.

use vstd::prelude::*;

verus! {

/// A neuron, named by the layer it sits in and its place in that layer.
#[derive(Clone, Copy, Debug, PartialEq, Eq, Hash, Structural)]
pub struct NeuronIndex {
    pub layer: u32,
    pub neuron: u32,
}

} // verus!
