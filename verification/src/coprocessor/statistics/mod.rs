//! Statistics of the stored data.

pub mod analyze;
