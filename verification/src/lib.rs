//! Extraction and aggregation of dataset annotations found on annotated case report forms.

pub mod annotation;
pub mod exporter;
pub mod order;
pub mod text;

pub use annotation::content::Annotation;
pub use annotation::fetcher::fetch;
pub use exporter::Exporter;
