//! Analysis of recordings by their fingerprints.
pub mod segments;
pub mod timeline;
pub mod traits;
