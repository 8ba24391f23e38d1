//! Strided memory-bandwidth measurement: access kernels, run configuration,
//! per-thread bookkeeping and the cache-line accounting model.
pub mod cache_info;
pub mod kernel;
pub mod model;
mod random;
pub mod runner;
