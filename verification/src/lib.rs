//! Patches statistical on-chip-variation timing data into a hierarchical
//! cell-timing model and schedules the simulation jobs that feed the patch
//! step.
//!
//! The model is held in the library's own types: table values and measured
//! moments are exact fixed-point integers, so the delta encoding written into
//! the variation tables is stated and proved exactly. Parsing and writing of
//! the timing-library text format itself, and of boolean condition
//! expressions, stay with outside collaborators.

pub mod config;
pub mod model;
pub mod moments;
pub mod patch;
pub mod pipeline;
pub mod resolve;
pub mod schedule;
pub mod text;

pub use model::Edge;
pub use model::LibraryModel;
pub use model::LookupTable;
pub use model::TimingArc;
pub use model::TimingSense;

