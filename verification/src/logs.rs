//! The log subsystem: records, the line parser, the rolling buffer, the
//! stream lifecycle, historical queries and activity summaries.

pub mod activity;
pub mod buffer;
pub mod entry;
pub mod level;
pub mod parser;
pub mod query;
pub mod stream;
pub mod structured;
