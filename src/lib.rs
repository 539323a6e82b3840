//! Control-plane library for the onboard mixer of a USB audio interface: a typed
//! catalog of mixer controls, routing recovered from control names, a value codec
//! and a write-and-verify protocol.

pub mod actions;
pub mod catalog;
pub mod codec;
pub mod config;
pub mod models;
pub mod presets;
pub mod routing;
pub mod scaling;
pub mod session;
pub mod text;
pub mod watch;
pub mod write;

