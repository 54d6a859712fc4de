//! Reconciliation of a music catalog against the files on disk: catalog
//! synchronisation, duplicate and quality grouping, and repair of playlist
//! references by approximate matching.
//!
//! Everything here is a function from plain values to plain values. Whoever
//! drives the library looks at the disk, asks the user, and performs the moves,
//! deletions and writes that the library decides on.

pub mod catalog;
pub mod duplicates;
pub mod listing;
pub mod paths;
pub mod playlist;
pub mod ranking;
pub mod repair;
pub mod scanner;
mod seqs;
pub mod similarity;
pub mod stats;
pub mod text;
