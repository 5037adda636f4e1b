//! Structured diagnostics: levels, trace and span identifiers, message templates.
use vstd::prelude::*;

pub mod buf;
pub mod collectors;
pub mod enrichers;
pub mod events;
pub mod formatters;
pub mod hex;
pub mod level;
pub mod message_templates;
pub mod metric;
pub mod payloads;
pub mod platform;
pub mod span;
pub mod text;
pub mod utc;

verus! {
} // verus!
