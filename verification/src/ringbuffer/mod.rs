//! Ring buffers through which driver and client hand each other records.
pub mod cells;
pub mod records;
pub mod data;
pub mod per_cpu_ring;
pub mod cas_queue;
pub mod locked_ring;
pub mod report;
pub mod scan;
pub mod client;
