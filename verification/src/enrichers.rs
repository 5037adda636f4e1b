//! Enrichers that add properties to events.
pub mod fixed_property;
