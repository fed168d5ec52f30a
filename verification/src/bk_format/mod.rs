//! The textual book format.

pub mod error;
pub mod grammar;
pub mod models;
pub mod parser;
