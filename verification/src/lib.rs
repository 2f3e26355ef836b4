//! Dynamic TCP port-forwarding core: a routing table with a virtual-address
//! allocator, per-route port mappings, an idle-connection detector, a backing
//! resource lifecycle with healthcheck scheduling, and a suffix-matching name
//! resolver with command-template rendering.
//!
//! The library holds the decision logic and data structures; the surrounding
//! binary performs the socket, timer and process work and feeds observations
//! (timestamps, process liveness, accepted connections) back in as plain
//! values.

pub mod addr;
pub mod cmd_resource;
pub mod config;
pub mod connections_counter;
pub mod forwarding;
pub mod healthcheck;
pub mod plumber;
pub mod resolver;
pub mod template;
pub mod text;
