//! The decisions of `runner`, a supervisor that keeps registered programs alive.
//!
//! Everything here computes on plain values. The program around it reads files and
//! clocks, starts and signals processes, and hands the outcomes back.
pub mod autostart;
pub mod cli;
pub mod commands;
pub mod daemon;
pub mod env_file;
pub mod grammar;
pub mod logs;
pub mod lossy;
pub mod model;
pub mod paths;
pub mod registry;
pub mod status;
pub mod store;
pub mod supervise;
pub mod text;
pub mod time;
pub mod unix;
pub mod watch;
pub mod windows;
