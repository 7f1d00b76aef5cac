//! Issue extraction and location pipeline for requirement critiques.
//!
//! The library turns a loosely structured critique string into a list of
//! located, validated issues: a tolerant record parser recovers candidate
//! records, and a validator maps each record's quote back onto exact
//! character offsets in the source text, enforcing closed vocabularies for
//! severity and category and a severity filter.

pub mod analysis_result;
pub mod config;
pub mod parser;
pub mod text;
