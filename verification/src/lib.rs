//! Building grep-family command lines, reading their output into match
//! records, and keeping the last search on disk.
pub mod text;
pub mod framework;
pub mod tools;
pub mod common;
pub mod pattern;
pub mod output;
pub mod search;
pub mod open;
