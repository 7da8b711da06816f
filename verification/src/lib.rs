//! A collector of Minecraft server statuses: which servers are polled and when,
//! what a poll reports, and what is kept and forwarded of it.

pub mod bedrock;
pub mod bytes;
mod chance;
pub mod change_detection;
pub mod collector;
pub mod config;
pub mod digest;
pub mod geo;
pub mod grpc_clients;
pub mod json;
pub mod models;
mod names;
pub mod ping;
pub mod scheduler;
pub mod sync;
pub mod table;
pub mod text;
pub mod wal;
