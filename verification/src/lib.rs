//! Write-side core of a log-shipping pipeline: turns a file-set pattern and a
//! naming scheme into concrete timestamped file paths, and decides when the
//! active output file must be rotated so that no file outgrows its byte
//! budget.  All path construction and rotation logic is verified; the file
//! system itself is driven by an unverified shell around this crate.

pub mod strutil;
pub mod render;
pub mod timestamp;
pub mod pattern;
pub mod writer;
pub mod config;
