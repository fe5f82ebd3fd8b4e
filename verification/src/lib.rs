//! Compiler core for dependently-typed record schemas: dependency
//! resolution, ownership analysis and validation-routine synthesis.

pub mod annotate;
pub mod compile;
pub mod counting;
pub mod cycle;
pub mod emitted;
pub mod error;
pub mod graph;
pub mod order;
pub mod ownership;
pub mod routine;
pub mod schema;
pub mod shortest;
pub mod synthesis;
