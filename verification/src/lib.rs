//! A probabilistic claim-checking protocol: a prover convinces a verifier
//! that a deterministic register-machine program yields a fixed expected
//! output for every input in a declared range, by exhibiting inputs whose
//! execution-trace hash falls below an agreed threshold.

pub mod claim;
pub mod emulator;
pub mod encode;
pub mod hash;
pub mod parser;
pub mod program;
pub mod prover;
pub mod checker;
pub mod vm;
pub mod words;
