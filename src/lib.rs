//! Connection pooling, round-robin backend selection and per-request
//! forwarding decisions for a TCP load balancer.
//!
//! The sockets themselves live with the caller: the library tracks each pooled
//! connection by an identifier handed out when it is created, and tells the
//! caller, step by step, which I/O to perform next.
pub mod pool;
pub mod selector;
pub mod handler;
pub mod probe;
pub mod backend;
