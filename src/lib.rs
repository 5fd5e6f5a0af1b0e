//! Ingestion of planner trajectory logs: an ordered wrapper for finite
//! floating-point values, the log's column schema, the decoding and checking
//! of one row, the grouping of accepted records by time step, the decisions of
//! the ingestion threads, and the orderings used to list records.
pub mod finite;
pub mod schema;
pub mod text;
pub mod row;
pub mod record;
pub mod aggregate;
pub mod pipeline;
pub mod sorting;
