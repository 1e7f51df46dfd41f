//! A Pomodoro timer engine for a status-bar module: the cycle state machine,
//! the control-message protocol, the persisted-state codec, and the status
//! snapshot, all verified. The daemon around it owns the sockets, clock, and
//! notifications and feeds this library plain values.

pub mod cache;
pub mod cli;
pub mod config;
pub mod consts;
pub mod control_cli;
pub mod message;
pub mod module;
pub mod strutil;
pub mod timer;
