//! Tiered compaction core of a time-series store: the generation model, the host
//! snapshot tracker, the gen1 planner, the compacted-data registry, the row-level file
//! compactor with its file index, and the coordinator that commits rounds atomically.

pub mod compactor;
pub mod coordinator;
pub mod generation;
pub mod ids;
pub mod index;
pub mod loadgen;
pub mod maps;
pub mod order;
pub mod planner;
pub mod plugin;
pub mod registry;
pub mod render;
pub mod rows;
pub mod schema;
pub mod tracker;
