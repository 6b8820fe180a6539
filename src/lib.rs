//! Annotation lists for mutation datasets: the line format of whitelist,
//! blacklist and sample-color files, batched signature updates with prefix
//! matching, the catalog of datasets, the mutation data files, and the
//! resolution of request paths.

pub mod catalog;
pub mod data;
pub mod lemmas;
pub mod listfile;
pub mod paths;
pub mod reconcile;
pub mod request;
pub mod text;
