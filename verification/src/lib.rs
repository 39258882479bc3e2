pub mod agreement;
pub mod api;
pub mod bytes;
pub mod checks;
pub mod classifier;
pub mod config;
pub mod control;
pub mod datetime;
pub mod decimal;
pub mod edge;
pub mod edge_client;
pub mod epoll;
pub mod fast_payload;
pub mod handoff;
pub mod head;
pub mod inbox;
pub mod io_trace;
pub mod laws;
pub mod lb;
pub mod message;
pub mod payload;
pub mod request;
pub mod ring;
pub mod scorer;
pub mod scoring;
pub mod serving;
pub mod stats;
pub mod text;
pub mod uring;
