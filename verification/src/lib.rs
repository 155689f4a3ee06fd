//! An MQTT 3.1.1 broker: packets, topics, sessions and the rules that tie them together.

pub mod auth;
pub mod broker;
pub mod client;
pub mod config;
pub mod messages;
pub mod metrics;
pub mod server;
pub mod sessions;
pub mod text;
