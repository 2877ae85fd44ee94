//! The decision logic of an HTTP load balancer: backend health and latency, round-robin
//! selection, the retry rules of one proxied request, the rewriting of request targets and the
//! administration of the backend list.
//!
//! Nothing here performs I/O or shares state between threads. Every operation takes the state it
//! works on as a plain value and says in its contract what it returns and what it changes.

pub mod admin;
pub mod backend;
pub mod balance;
pub mod exchange;
pub mod health;
pub mod identifier;
pub mod metrics;
pub mod outgoing;
pub mod retries;
pub mod uri;
