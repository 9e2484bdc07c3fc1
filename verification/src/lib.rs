//! Core logic of a local image-organizing tool: a pure filter-and-sort query
//! engine over image records with category assignments, and the document
//! logic of a synchronized JSON configuration store.
//!
//! All file and network traffic stays with the embedding application; this
//! crate holds the decisions and computations, each with a verified contract.

pub mod filter;
pub mod media;
pub mod paths;
pub mod query;
pub mod records;
pub mod sort;
pub mod store;
pub mod text;
