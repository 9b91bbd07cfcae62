//! The terminal that shows the services and their output and takes commands.

pub mod commands;
pub mod complete;
pub mod highlight;
pub mod service_names;
pub mod session;
pub mod short_names;
pub mod status;
pub mod terminal;
