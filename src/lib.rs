//! A multi-layer perceptron trainer: the parameter model of a dense layer
//! stack, its canonical flat order, dataset decoding, batching and the
//! worker job queue.

pub mod params;
pub mod loader;
pub mod train;
pub mod pool;
pub mod config;
