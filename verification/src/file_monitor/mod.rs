//! File monitor: which operations are reported, and what becomes of them.
pub mod path_match;
pub mod rules;
pub mod registry;
pub mod file_module;
pub mod minifilter;
