//! A supervisor for processes on a peer-to-peer mesh: the decisions behind its
//! control plane, its telemetry plane and its process table.

pub mod cgroup;
pub mod cli;
pub mod client;
pub mod config;
pub mod id;
pub mod laws;
pub mod lifecycle;
pub mod process;
pub mod proto;
pub mod ratelimit;
pub mod sandbox;
pub mod store;
pub mod supervisor;
pub mod telemetry;
pub mod text;
pub mod time;
