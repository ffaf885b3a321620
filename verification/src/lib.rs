//! Ferriox — block-routed, memory-bounded compressed sparse attention.
//!
//! This crate holds the host-side logic of the pipeline:
//!
//! - **routing**: entry/block arithmetic, the deterministic tie-break, and the
//!   CSR → CSC reverse view of a block selection;
//! - **indexer**: the causal legal domain of each query and its budget;
//! - **scheduler**: the shared task counter of the backward passes;
//! - **workspace**: the bounded, aligned bump arena for scratch buffers;
//! - **tensor**: row-major shape/stride bookkeeping.
pub mod config;
pub mod error;
pub mod forward;
pub mod indexer;
pub mod routing;
pub mod scheduler;
pub mod sink;
pub mod tensor;
pub mod workspace;

pub use config::{BackwardBackend, BlockSelection, ExecutionPolicy, ReverseBlockIndex};
pub use error::FerrioxError;
pub use forward::build_reverse_index;
pub use tensor::Tensor;
