//! A verified core for a CIFAR-10 image-classification pipeline: binary
//! record parsing, dataset assembly, batch collation, deterministic epoch
//! shuffling, artifact encoding, and the training/inference orchestration
//! decisions.
//!
//! The numeric tensor engine (convolutions, autodiff, optimizer updates) is
//! an external collaborator: this crate models its inputs and outputs as
//! plain values and proves the data-handling logic around it.

pub mod artifact;
pub mod data;
pub mod inference;
pub mod model;
pub mod training;
