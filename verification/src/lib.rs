//! A concurrent tool-dispatch runtime: an actor abstraction with ordered
//! inboxes, a bounded worker pool with correlated replies, and a tool registry
//! that unifies locally registered handlers with subprocess-served tools
//! behind one namespace.
//!
//! The library holds the decision and bookkeeping logic of the runtime, each
//! function with a verified contract. The asynchronous plumbing (channels,
//! spawned tasks, subprocess and HTTP transports) lives with the embedding
//! program, which drives these state machines one event at a time.

pub mod actor;
pub mod agent;
pub mod config;
pub mod context;
pub mod errors;
pub mod json;
pub mod llm_client;
pub mod mcp_manager;
pub mod model;
pub mod planner;
pub mod strmap;
pub mod text;
pub mod tool_registry;
pub mod worker;

use vstd::prelude::*;

verus! {

} // verus!
