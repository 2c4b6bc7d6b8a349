//! Pages of neuron importance scores and everything that produces or stores them.

pub mod neuron_index;
pub mod neuroscope_model_page;
pub mod ordering;
pub mod retrieve;
pub mod score;
pub mod wire;
