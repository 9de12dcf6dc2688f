//! A small, verified HTTP routing and dispatch core.
//!
//! The crate models the pieces a web framework needs to turn an incoming
//! request into a response: a route table with literal and parameter path
//! segments and nested scopes, an extractor step that builds handler inputs,
//! a dispatcher over a closed set of handler shapes, a resolver that maps
//! every handler outcome to a single wire response, a shared application
//! state container, and a server lifecycle state machine with graceful stop.
//! The network listener itself is left to the embedding program.

pub mod bytes;
pub mod http;
pub mod path;
pub mod pattern;
pub mod query;
pub mod dispatch;
pub mod router;
pub mod engine;
pub mod lifecycle;
pub mod laws;
pub mod demo;
