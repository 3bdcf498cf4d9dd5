//! Discovery of linked markdown documents.
//!
//! From a markdown document on disk or at a URL, the library explores the documents
//! that can be reached by following links, breadth first and up to a depth bound,
//! and returns the location and the title of each. It never reads a file or sends a
//! request itself: a traversal is a `walk::Walk` that says what it needs and is told
//! what came of it. `traversal` holds the mathematical machine that every walk
//! follows, `laws` what is proved of it.

pub mod fetch;
pub mod files;
pub mod github;
pub mod laws;
pub mod local;
pub mod markdown;
pub mod paths;
pub mod remote;
pub mod render;
pub mod snapshot;
pub mod text;
pub mod traversal;
pub mod unicode;
pub mod walk;
