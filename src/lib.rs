//! Decoding of a rollup sequencer feed: the binary payload carried by each
//! feed message, the envelope model, and the relay client's decisions.

pub mod decoder;
pub mod laws;
pub mod relay;
pub mod types;
