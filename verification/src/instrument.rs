//! The planning half of the IR instrumentation engine: the data that the
//! passes exchange with the runtimes (lock and access operation encodings,
//! reserved runtime names, symbolic constraints) and the decisions each
//! pass makes over a module, separated from the IR mutation itself.

pub mod asan;
pub mod cli;
pub mod coverage;
pub mod fuzz;
pub mod ir;
pub mod names;
pub mod race;
pub mod symbolic;
