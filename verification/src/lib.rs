//! Face authentication.

pub mod auth;
pub mod camera;
pub mod cli;
pub mod daemon;
pub mod encoding;
pub mod error;
pub mod ipc;
pub mod messages;
pub mod model;
pub mod notify;
pub mod pam;
pub mod services;
pub mod text;
