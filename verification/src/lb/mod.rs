//! The load balancer.
pub mod client;
pub mod metrics;
pub mod pool;
pub mod request;
pub mod session;
pub mod upstream;
