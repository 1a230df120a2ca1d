//! Look up creature reference data and render it as lines of text.
//!
//! The library holds the logic: resolving localized display names, turning an
//! evolution tree into lines, combining two types' damage relations into
//! multiplier buckets, and laying out each lookup's block of text. Fetching
//! records from the web service is left to the caller, who hands the library
//! plain values.

pub mod cli;
pub mod dex;
pub mod enums;
pub mod evolution;
pub mod lookups;
pub mod matchups;
pub mod names;
pub mod text;
