//! Training-data server and client: the verified core.
//!
//! Everything in this crate is pure computation: the framing, sampling,
//! batching, upload and lifecycle rules of the server and of its training
//! client. Sockets, files, databases and clocks are handled by the program
//! around it, which feeds events in and carries the decisions out.
pub mod text;
pub mod wire;
pub mod symbols;
pub mod status;
pub mod ids;
pub mod uploads;
pub mod metrics;
pub mod upload_session;
pub mod data;
pub mod worker;
pub mod sampling;
pub mod audio;
pub mod pcm;
pub mod pipeline;
pub mod run_manager;
pub mod config;
pub mod prefetch;
pub mod loader;
pub mod run_state;
pub mod run;
pub mod semaphore;
pub mod order;
pub mod ipc;
pub mod checkpoints;
pub mod artifacts;
pub mod reports;
pub mod assets;
pub mod hashing;
pub mod grpc;
pub mod initialize;
pub mod http;
pub mod shutdown;
