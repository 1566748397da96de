//! Verified core of the benchmark harness.
pub mod analysis;
pub mod cli;
pub mod compare;
pub mod discovery;
pub mod document;
pub mod energy;
pub mod engine;
pub mod kernel;
pub mod machine;
pub mod mode;
pub mod output;
pub mod report;
pub mod runner;
pub mod sample;
pub mod stats;
pub mod text;
pub mod workload;
