//! Scanning of markdown-style image references in a text document.
//!
//! The library finds every image reference `![alt](location)` in a document,
//! classifies each location as remote or local, rewrites every reference to
//! point into a chosen target directory, and derives a file name from a
//! remote URL. All of the scanning and rewriting logic is verified; reading
//! the document, fetching bytes over the network and writing them to disk
//! are left to the surrounding program.

pub mod fetch;
pub mod links;
pub mod pattern;
pub mod rewrite;
