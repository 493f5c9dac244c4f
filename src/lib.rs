//! Incremental static-site build engine: path rules, the migration cache,
//! render planning and the live-reload decisions, with their contracts.

pub mod builder;
pub mod context;
pub mod error;
pub mod filter;
pub mod paths;
pub mod server;
pub mod sink;
pub mod text;
