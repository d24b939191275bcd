//! What is computed close to the data for the query layer.

pub mod statistics;
