//! Verified core of a zenoh configuration and protocol toolkit: encodings,
//! JSON plugin configuration trees, and the decisions of session setup.
pub mod text;
pub mod encoding;
pub mod json;
pub mod plugins;
pub mod config;
pub mod runtime;
pub mod transport;
pub mod notifier;
