//! Builds an Artist → Album → Track catalog from audio files found under a
//! directory tree, optionally enriched with matches from a remote search
//! service.

pub mod text;
pub mod models;
pub mod matching;
pub mod cover;
pub mod catalog;
pub mod walk;
pub mod enrich;
