//! A catalog of named secrets: which `(key, tag)` pairs are known, how each
//! one is addressed in a flat secure credential store, and how a query by key
//! resolves to a single entry.

pub mod entry;
pub mod index;
pub mod resolve;
pub mod command;
pub mod laws;
