//! Builds a single ordered content tree out of a snapshot of a directory of
//! markdown documents: titles are inferred from headings or file names, files
//! and subdirectories are classified and sorted, a user-supplied override
//! document is merged over the computed defaults, and every node is
//! materialized into rendered markup.

pub mod content;
pub mod data;
pub mod error;
pub mod paths;
pub mod snapshot;
pub mod text;
pub mod titles;
pub mod tree;

pub use content::Content;
pub use data::Data;
