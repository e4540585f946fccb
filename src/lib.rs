//! Trust registry of a monitoring agent's connection controller: which remote
//! sites may push data to the agent or pull data from it, which connections were
//! imported without a site, and when the unauthenticated legacy pull mode is allowed.

pub mod cli;
pub mod config;
pub mod connection;
pub mod error;
pub mod imported;
pub mod labels;
pub mod registry;
pub mod site_id;
pub mod site_map;
