//! Caching of columnar batches read from Parquet files.

pub mod arrays;
pub mod behavior;
pub mod bench;
pub mod bits;
pub mod cache;
pub mod client;
pub mod column;
pub mod dictionary;
pub mod ids;
pub mod metrics;
pub mod modes;
pub mod opener;
pub mod policies;
pub mod reader;
pub mod schema;
pub mod selection;
pub mod text;
pub mod tpch;
pub mod tracer;
