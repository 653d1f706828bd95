//! Helpers that the readers of binary files share.

pub mod file_reader;
