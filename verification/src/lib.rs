//! Bridge between a tool-invocation front end and line-framed JSON-RPC
//! language servers: length-prefixed framing, request/response correlation,
//! document synchronization, and normalization of definition replies.

pub mod args;
pub mod config;
pub mod decimal;
pub mod definition;
pub mod documents;
pub mod json;
pub mod lsp_bridge;
pub mod transport;
pub mod utils;
