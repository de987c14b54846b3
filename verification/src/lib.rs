//! A dynamic-analysis toolchain library: shadow-memory address checking,
//! edge-coverage accounting, a coverage-guided fuzzer core with a seed pool
//! and mutation engine, a delta-debugging input minimizer, a lockset-based
//! data-race detector, and the planning logic of an IR instrumentation
//! engine.

pub mod bucket;
pub mod bytes;
pub mod codec;
pub mod covmap;
pub mod ddmin;
pub mod edge;
pub mod fuzz;
pub mod instrument;
pub mod mutator;
pub mod race;
pub mod seed;
pub mod shadow;
pub mod strfmt;
pub mod symbolic;
pub mod tools;
