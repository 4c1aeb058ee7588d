//! Upward directory resolution: walk the ancestors of a directory, stop at
//! the first one that a rule accepts, and optionally step down into exactly
//! one matching child directory.

pub mod path;
pub mod error;
pub mod patterns;
pub mod count;
pub mod walk;
pub mod downward;
pub mod cli;
