//! Writing events as text: plain text, raw, and compact JSON.
pub mod json;
pub mod raw;
pub mod text;
pub mod value;
