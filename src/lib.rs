//! Offset resolution, consumer-group lag reporting and bounded streaming sessions for a
//! client of a partitioned, replicated log broker.
pub mod broker;
pub mod config;
pub mod error;
pub mod groups;
pub mod lag;
pub mod metadata;
pub mod offsets;
pub mod registry;
pub mod resolver;
pub mod session;
pub mod state;
