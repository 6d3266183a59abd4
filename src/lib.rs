//! Measurement of the heap overhead of associative containers: synthetic keys,
//! allocation snapshots, overhead accounting, the containers under
//! measurement, and an ordered store of results with its tabular export.
pub mod csv;
pub mod keys;
pub mod results;
pub mod subjects;
pub mod sweep;
pub mod tracker;
