//! Collectors that accept events: Seq, silent, and standard output.
pub mod seq;
pub mod silent;
pub mod stdio;
