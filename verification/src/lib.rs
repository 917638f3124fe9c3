//! A failover routing core for outbound API traffic.
//!
//! Given several upstream providers for a logical service, the library
//! decides which provider should receive the next request, detects
//! provider failure through a per-provider circuit breaker, and supplies
//! the decision logic with which a background recovery loop reinstates
//! providers that have become reachable again.
//!
//! All state lives in memory on plain values; the caller performs the
//! clock reads, persistence and network probes and hands their outcomes
//! in as arguments.

pub mod api_config;
pub mod breaker;
pub mod commands;
pub mod config;
pub mod error;
pub mod provider;
pub mod recovery;
pub mod router;
pub mod store;
pub mod text;
