//! Graph neural network layers over a node-feature matrix and an edge list.
//!
//! The graph structure (edge lists, degrees, normalisation coefficients) is held
//! in plain integers and verified exactly. Numeric work on node features is done
//! by `candle_core` tensors, reached through the small trusted surface of
//! [`nn::tensor`].
//!
//! Every contract reads a tensor as a value. What is proved of a pass holds of
//! the contents that features and parameters have while the pass runs; an
//! optimiser that overwrites parameters in place between two passes changes
//! what the next pass computes, not what was proved of the last.

pub mod datasets;
pub mod nn;
pub mod utils;
