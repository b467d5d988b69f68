//! Media-library core: file-name conventions, content fingerprints, the
//! scan, rescan and catalog decisions, the interactive-title graph and its
//! playback engine, and the small state machines around them. I/O lives
//! with the caller; everything here computes.

pub mod text;
pub mod naming;
pub mod credits;
pub mod content_hash;
pub mod json;
pub mod state;
pub mod expr;
pub mod keyed;
pub mod interactive;
pub mod session;
pub mod engine;
pub mod driver;
pub mod jobs;
pub mod presence;
pub mod catalog;
pub mod config;
pub mod choice;
pub mod validate;
pub mod scan;
pub mod migrate;
pub mod scope;
pub mod ratings;
pub mod resume;
pub mod people;
pub mod music;
pub mod fingerprint_reads;
