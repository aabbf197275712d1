//! Force-directed graph layout with the forces of d3-force, on the GPU when there
//! is one and on the CPU otherwise.
//!
//! This library is the host side of both backends: it accepts or refuses a
//! configuration, packs nodes, links and parameters into device buffers, lists the
//! device commands of every tick, and keeps track of pins, moved nodes and stale
//! positions. It does no arithmetic on numbers and no input or output: it says
//! what is to be computed, sent and read, and takes the results.

pub mod adapter;
pub mod auto;
pub mod bytes;
pub mod cpu;
pub mod gpu;
pub mod graph;
pub mod laws;
pub mod meaning;
pub mod meaning_calls;
pub mod meaning_gpu;
pub mod meaning_plan;
pub mod model;
pub mod number;
pub mod plan;
pub mod rounding;
pub mod session;

pub use adapter::{probe, AdapterInfo, Gpu, GpuError};
pub use auto::{Backend, Simulation};
pub use gpu::GpuSimulation;
pub use model::{Config, ForceSpec, NodeInit, Values};
pub use number::{Scalar, F32};
