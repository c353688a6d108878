//! Annotation records, their classification and their aggregation over the pages of a form.

pub mod content;
pub mod decoder;
pub mod fetcher;
pub mod grammar;
pub mod kind;
pub mod pattern;
pub mod symbol;
