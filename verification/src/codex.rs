//! Codex: threads of its app server, with the live status that the desktop
//! application broadcasts.
pub mod ipc;
pub mod mapper;
pub mod observer;
pub mod rpc;
