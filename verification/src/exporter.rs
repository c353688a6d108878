//! Tables of variables, of value-level clauses and of raw annotations.

pub mod export;
pub mod raw;
pub mod utils;
pub mod value;
pub mod variable;

pub use export::Exporter;
