//! Relay between Unix domain sockets and TCP or TLS targets.
pub mod cli;
pub mod config;
pub mod daemon;
pub mod metrics;
pub mod names;
pub mod path;
pub mod relay;
pub mod text;
pub mod tls;
