//! Verified core of CleitonForge, a differential fuzzer and benchmarking
//! layer for quantum circuit simulators.

pub mod backends;
pub mod certify;
pub mod circuit_stats;
pub mod error;
pub mod gate;
pub mod generator;
pub mod ir;
pub mod memory;
pub mod mirror;
pub mod normalizer;
pub mod oracle;
pub mod qasm2;
pub mod qasm3;
pub mod qv;
pub mod sample;
pub mod shrinker;
pub mod source;
pub mod text;
pub mod translate;
pub mod triage;
pub mod zne;
pub mod zoo;

pub use gate::GateKind;
pub use ir::{Circuit, CircuitError, Operation, Qubit};
