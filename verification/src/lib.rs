//! Technical-analysis indicators and a date-ordered store of price bars.

pub mod error;
pub mod fixed;
pub mod json;
pub mod number;
pub mod pattern;
pub mod stock;
pub mod text;
