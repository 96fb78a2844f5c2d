//! Writer for the files read by the ninja build tool: variables, rules,
//! pools and build edges, escaped and wrapped at a fixed column width.
pub mod text;
pub mod wrap;
pub mod rule;
pub mod edge;
pub mod writer;
