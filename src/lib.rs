//! Supervision and configuration of a local proxy tunnel: route-table
//! inspection, engine configuration, share links, system proxy plans and the
//! connection state machine.

pub mod text;
pub mod models;
pub mod network;
pub mod json;
pub mod config;
pub mod uri;
pub mod logs;
pub mod stats;
pub mod manager;
pub mod proxy;
pub mod plugin;
pub mod servers;
