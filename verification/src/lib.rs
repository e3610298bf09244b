//! Packs a directory tree into one zip container.
//!
//! A caller hands over a snapshot of the tree and a policy that picks the
//! compression settings of each file. The walker lays the tree out as a list
//! of entries in the order of their relative paths, and the writer feeds them
//! to the container one by one.

pub mod archiver;
pub mod checksum;
pub mod entry;
pub mod error;
pub mod laws;
pub mod names;
pub mod order;
pub mod path;
pub mod settings;
pub mod sink;
pub mod tree;
pub mod walker;
pub mod writer;
