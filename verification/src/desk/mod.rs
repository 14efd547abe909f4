//! A desktop of client windows: what clients ask for, and what is sent to them.

pub mod buffers;
pub mod commands;
pub mod details;
pub mod ipc;
pub mod manager;
pub mod managing;
pub mod outputs;
pub mod requests;
pub mod script;
pub mod scripting;
pub mod seat;
pub mod shell;
pub mod telling;
pub mod windowing;
pub mod windows;
