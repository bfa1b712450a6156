//! Core of a zero-trust mesh gateway: the routing table and link-state
//! database, shortest-path routing, and the decisions behind message
//! forwarding, link-state flooding and peer health probing.
//!
//! Network and file I/O, timers and TLS live with the caller, which hands
//! plain values in and acts on the plain values it gets back.
//!
//! Every function here carries a contract, stated over the views of the
//! data, and Verus proves it. Five small functions are trusted instead:
//! `format_rfc3339`, `parse_rfc3339` and `read_clock` in `timestamp`, which
//! call the `time` crate and the system clock, and `extract_certificates`
//! and `extract_private_keys` in `certs`, which call `rustls-pemfile`.
//!
//! - `types`, `timestamp`, `wire`, `config`: the records, their wire forms
//!   and the configuration.
//! - `node_id`: equality and order of node identifiers.
//! - `model`: the routing table as a mathematical object, with the laws
//!   that hold of every sequence of operations.
//! - `topology`: the graph, reachability and what a route is.
//! - `routing`: the routing table itself.
//! - `server`: the decisions of the request handlers and periodic tasks.
//! - `certs`, `client`: certificate material and the judgement of HTTP
//!   answers.

pub mod certs;
pub mod client;
pub mod config;
pub mod model;
pub mod node_id;
pub mod routing;
mod search;
pub mod server;
pub mod timestamp;
pub mod topology;
pub mod types;
pub mod wire;
