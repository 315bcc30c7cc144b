//! Ingestion of transit schedule feeds: merging a federated feed/operator
//! registry, deriving geometry and display styling for each feed, and the
//! decisions that order and isolate the per-feed jobs.

pub mod bounds;
pub mod clip;
pub mod codes;
pub mod defaults;
pub mod feed;
pub mod geometry;
pub mod hull;
pub mod job;
pub mod ledger;
pub mod merge_laws;
pub mod operators;
pub mod path;
pub mod registry;
pub mod rows;
pub mod run;
pub mod stops;
pub mod styling;
pub mod text;
