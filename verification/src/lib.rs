//! Core of a client-side integration layer for the Model Context Protocol
//! (MCP): a verified JSON wire codec, the JSON-RPC envelope, a request
//! correlation session, transport decision logic, and a registry of named
//! server configurations.

pub mod client;
pub mod config;
pub mod json;
pub mod jtext;
pub mod num;
pub mod protocol;
pub mod rpc;
pub mod server;
pub mod strutil;
pub mod transport;
pub mod types;
