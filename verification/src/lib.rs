//! A process manager for local development: the configuration of the services, the manager that
//! runs them, and the terminal that is attached to it.

pub mod attach;
pub mod config;
pub mod ipc;
pub mod manager;
pub mod name_map;
pub mod numbers;
pub mod paths;
pub mod replies;
pub mod startup;
pub mod text;
