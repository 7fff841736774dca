//! In-memory cache of a database server's catalog and disk-quota status.
//!
//! The library holds the shared snapshot of catalog and quota data, the
//! refresh logic that repopulates it from query results, the parser for the
//! disk-sampler output, owner attribution, configuration validation, and the
//! planning of the drop-database operation. All network and process I/O is
//! left to the surrounding application, which feeds plain values in and out.

pub mod config;
pub mod error;
pub mod handler;
pub mod postgres;
pub mod state;
pub mod text;
pub mod worker;
