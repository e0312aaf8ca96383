//! Core of a client-server process control system: the configuration and
//! status model, the ZooKeeper layout and client, the worker table that a
//! node keeps in step with the configuration, and the decisions of the
//! node's main loop.

pub mod config;
pub mod info;
pub mod paths;
pub mod zk;
pub mod settings;
pub mod manager_settings;
pub mod workers;
pub mod manager;
pub mod process;
pub mod service;

pub use paths::{ZK_CONFIG_PATH, ZK_INFO_PATH, ZK_NODE_PATH};
