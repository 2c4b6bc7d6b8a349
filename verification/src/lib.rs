//! Acquisition, storage and lookup of neuron importance pages.
//!
//! The library holds the decisions of the system: how a page is put in canonical
//! order and encoded, where a page lives on disk, how a batch of fetches is
//! collected or scheduled, and how a request is resolved against the registry of
//! services. Whatever touches the network or the file system is left to the
//! caller, who reports what it observed as plain values.

pub mod data;
pub mod failure;
pub mod model_config;
pub mod neuronav;
pub mod service;
pub mod service_provider;
pub mod text;

pub use model_config::ModelConfig;
pub use neuronav::Neuronav;
pub use service::Service;
pub use service_provider::ServiceProvider;
