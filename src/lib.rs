//! A text mutation engine: it finds places in a passage where a plausible
//! error can be introduced (swapped letters, removed punctuation, confused
//! homophones), selects a reproducible subset of them and applies it.

pub mod text;
pub mod models;
pub mod random;
pub mod homophones;
pub mod scan;
pub mod edit;
pub mod mutator;
pub mod routes;
