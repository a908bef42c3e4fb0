//! Verified core of an edge serverless node: a domain-keyed deployment
//! registry, a lifecycle reactor driven by control-plane events, a
//! per-deployment worker-pool model with FIFO queues, and the request
//! dispatcher that routes, classifies and accounts each request.
//!
//! The surrounding process (HTTP listener, message bus, disk, channels,
//! threads) lives outside this library and drives it with plain values.

pub mod assoc;
pub mod deployment;
pub mod dispatch;
pub mod node;
pub mod pool;
pub mod reactor;
pub mod registry;
