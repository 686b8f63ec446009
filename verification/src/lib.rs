//! Line-oriented read access to a memory-mapped file's bytes.
//!
//! The surrounding program opens a file, queries its size, and maps its
//! bytes read-only into memory; this library takes those bytes and splits
//! them lazily into newline-delimited line views, each borrowing directly
//! from the mapped region.

pub mod lines;
pub mod reader;
