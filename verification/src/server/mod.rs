//! The server: how connections come about.

pub mod connect;
pub mod listener;
pub mod registry;
