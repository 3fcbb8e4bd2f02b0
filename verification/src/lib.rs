//! Sandcastle: the parts of an agent system that decide. A shell and its audit, file tools,
//! sessions and their store, the wire formats of model providers, forges, tool servers and
//! nodes, and the command line.
//!
//! The library performs no input or output. Where work outside is needed, a function names
//! it and is told the outcome.

use vstd::prelude::*;

pub mod actor;
pub mod anthropic;
pub mod ascii;
pub mod audit;
pub mod cli;
pub mod cluster;
pub mod forge;
pub mod fstools;
pub mod gitea;
pub mod github;
pub mod harness;
pub mod http;
pub mod jj;
pub mod json;
pub mod mcp;
pub mod mcp_server;
pub mod openai;
pub mod paths;
pub mod persist;
pub mod runlog;
pub mod server;
pub mod subagent;
pub mod table;
pub mod text;
pub mod tmpl;
pub mod vshell;
pub mod wire;

verus! {

} // verus!
