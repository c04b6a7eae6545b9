//! Verified core of an MCP server for WSL: argument handling, tool catalog and
//! dispatch, text parsing of system files, output formatting and the JSON-RPC
//! request logic. I/O stays with the caller, which hands plain values in.
use vstd::prelude::*;

pub mod args;
pub mod exec;
pub mod files;
pub mod http;
pub mod json;
pub mod passwd;
pub mod procs;
pub mod record;
pub mod replies;
pub mod server;
pub mod system;
pub mod text;
pub mod tools;

verus! {

} // verus!
