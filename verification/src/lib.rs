//! Benchmarks of hashers and maps, and the tables made from their report.
//!
//! The benchmark suite prints one line per case. `pipeline` turns all that
//! it printed into comparison tables: `grammar` finds the report lines and
//! reads each into a record, `table` groups the records by family and
//! implementation, and `matrix` writes one latency table and one throughput
//! table per family. `workload` builds the inputs of the cases and names
//! them; `digest` adapts BLAKE3 to a 64-bit hasher.
use vstd::prelude::*;

pub mod digest;
pub mod error;
pub mod grammar;
pub mod matrix;
pub mod number;
pub mod order;
pub mod pipeline;
pub mod record;
pub mod table;
pub mod text;
pub mod workload;

