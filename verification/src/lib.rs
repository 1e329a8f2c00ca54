//! Copying a directory tree, file kind by file kind.
//!
//! The library holds the rules of such a copy and none of its input or output:
//! which entries of a directory count ([`extension`], [`scanner`]), where each
//! file goes ([`path`]), and what follows from each operation that succeeds or
//! fails ([`copier`]). A driver lists directories, creates them and copies
//! files, and tells the library how each of these went.

pub mod bytes;
pub mod cli;
pub mod copier;
pub mod error;
pub mod extension;
pub mod fates;
pub mod path;
pub mod run;
pub mod scanner;
pub mod tree;
pub mod views;
