//! On-demand loading of tool schemas for a language model agent.
//!
//! Tools can be deferred: their names and descriptions are known, while their full JSON schemas
//! stay out of the model's context. The `tool_search` tool finds deferred tools, by exact name or
//! by keywords, activates them and shows their schemas.
//!
//! - [`text`]: operations on text over its characters.
//! - [`json`]: JSON values and their content.
//! - [`tool`]: what a tool tells of itself, and what a call of one returns.
//! - [`catalog`]: lookup and ranked keyword search.
//! - [`native_deferred`] and [`mcp_deferred`]: the two kinds of deferred tools, and the set of
//!   activated ones.
//! - [`tool_search`]: the search tool.
//! - [`laws`], [`text_laws`], [`search_laws`] and [`call_laws`]: what holds of the library as a
//!   whole, of text, of lookup and search, and of a call.

pub mod call_laws;
pub mod catalog;
pub mod json;
pub mod laws;
pub mod mcp_deferred;
pub mod native_deferred;
pub mod search_laws;
pub mod text;
pub mod text_laws;
pub mod tool;
pub mod tool_search;
