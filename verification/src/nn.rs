//! Message passing: edge lists, degrees, aggregation and the layers built on them.

pub mod error;
pub mod tensor;
pub mod named;
pub mod shape;
pub mod activation;
pub mod edge_index;
pub mod degree;
pub mod aggregate;
pub mod typed;
pub mod traits;
pub mod stack;
pub mod gcn;
pub mod gat;
pub mod gin;
pub mod hetero_gcn;
pub mod weights;

pub use edge_index::EdgeIndex;
pub use error::GnnError;
pub use traits::{GnnModule, HeteroGnnModule};
