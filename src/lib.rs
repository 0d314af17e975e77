//! Data pipeline and network engine for a fully-connected digit classifier:
//! sample parsing, datasets, shuffled batching, weight initialisation,
//! forward and backward propagation, and gradient-descent training.
pub mod args;
pub mod config;
pub mod csv_dataset;
pub mod dataset;
pub mod loader;
pub mod matrix;
pub mod mnist_sample;
pub mod neural_net;
pub mod propagation;
pub mod sample;
pub mod text;
pub mod trainer;
