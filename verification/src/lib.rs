//! A parallel dense-matrix-multiplication engine.
//!
//! The verified core: matrices with an exact row-major layout invariant, a
//! dot-product engine with an exact overflow-aware contract, a shape-checked
//! multiplication coordinator, and the counter stores that callers use for
//! instrumentation. Thread and channel plumbing lives outside the library
//! and drives the coordinator through its task-planning API.

pub mod associativity;
pub mod coordinator;
pub mod errors;
pub mod matrix;
pub mod metrics;
pub mod render;
pub mod vector;

pub use errors::{CellFault, MatError};
pub use metrics::amap::AmapMetrics;
pub use metrics::cmap::CmapMetrics;
pub use metrics::Metrics;
pub use matrix::{calculate_thread_count, multiply, Matrix};
pub use vector::{dot_product, Vector};
