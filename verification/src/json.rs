//! Helpers for JSON text: laying it out for a reader, and taking the
//! layout out again.

pub mod pretty_print;
pub mod sanitize;
