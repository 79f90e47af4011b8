//! Verified core of a desktop wallpaper tool: the control protocol spoken
//! between running instances, the local file server's request handling,
//! shader wrapping, display selection and the text helpers they share.

pub mod text;
pub mod ipc;
pub mod server;
pub mod renderer;
pub mod display;
pub mod shader;
pub mod wallpaper;
pub mod platform;
pub mod config;
pub mod commands;
pub mod builtin;
pub mod cli;
