//! Core of a developer-workstation daemon that gives each local project a
//! stable `<name>.localhost` hostname, supervises the commands the project
//! runs, discovers the TCP port each command binds, and routes HTTP requests
//! on a single well-known port to the right backend.

pub mod cli;
pub mod codec;
pub mod common;
pub mod ipc;
pub mod message;
pub mod probe;
pub mod process;
pub mod proxy;
pub mod registry;
pub mod routing;
pub mod strutil;
