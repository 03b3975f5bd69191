//! What is read off a recording: its fingerprint and its metadata.
pub mod fingerprint;
pub mod metadata;
