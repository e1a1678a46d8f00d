//! Pattern-anchored binary patching.
//!
//! The library computes a compact description of the byte-level differences
//! between two equal-length buffers (a sequence of patch sections, each a
//! search pattern and its replacement), makes each search pattern unique
//! within a reference buffer by growing it with adjacent context, merges
//! overlapping sections, and re-applies a patch to a target buffer by a
//! single left-to-right scan that substitutes the replacement bytes wherever
//! a section's pattern matches.

pub mod applier;
pub mod differ;
pub mod merger;
pub mod grower;
pub mod laws;
pub mod patch;
pub mod pipeline;
pub mod search;
