//! Comparison of hashdeep file-hash manifests.
//!
//! A manifest is a text file with a five-line preamble followed by one
//! comma-separated record per line.  This crate parses such manifests into
//! typed records, indexes them by their md5 digest, and classifies the
//! entries of one index against another.

#![verifier::loop_isolation(false)]

pub mod compare;
pub mod index;
pub mod parse;
pub mod record;
pub mod text;
