//! Reconstruction of client tracing timelines for a monitor server, together
//! with the in-process log pipeline that feeds it.

pub mod client_infos_store;
pub mod entities;
pub mod ids;
pub mod invariants;
pub mod layer;
pub mod log_writer;
pub mod message;
pub mod monitor;
pub mod net;
pub mod tables;
pub mod timeline;
pub mod wslog;
