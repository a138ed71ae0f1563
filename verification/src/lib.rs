//! Turns a range of commit messages into a deduplicated, sorted list of the
//! tracker items they reference, rendered as release-note lines.
//!
//! The pipeline has three stages: extracting bracketed item annotations from
//! free-text commit messages, classifying each remote lookup's response body
//! as an item record or a structured error, and aggregating the resolved
//! items into a stable, deduplicated, id-sorted list.

pub mod aggregate;
pub mod classify;
pub mod commits;
pub mod extract;
pub mod fetcher;
pub mod json;
pub mod render;
pub mod types;
