//! What runs beside the transactions: garbage collection.

pub mod gc_worker;
