//! Acquisition of pages: where they come from, where they go, and how a batch
//! of fetches is collected or scheduled.

pub mod batch;
pub mod collect;
pub mod neuroscope;
